use vstd::prelude::*;
use crate::keyed::{
    distinct_keys, lemma_map_of_keys, lemma_map_of_len, lemma_map_of_remove, lemma_map_of_update,
    lemma_map_of_value, map_of,
};

verus! {

/// One to-do item.
pub struct Todo {
    pub id: u64,
    pub title: String,
    pub description: String,
    pub completed: bool,
    pub created_at: u64,
    pub updated_at: u64,
}

/// The mathematical content of a to-do item.
pub ghost struct TodoView {
    pub id: u64,
    pub title: Seq<char>,
    pub description: Seq<char>,
    pub completed: bool,
    pub created_at: u64,
    pub updated_at: u64,
}

impl View for Todo {
    type V = TodoView;

    open spec fn view(&self) -> TodoView {
        TodoView {
            id: self.id,
            title: self.title@,
            description: self.description@,
            completed: self.completed,
            created_at: self.created_at,
            updated_at: self.updated_at,
        }
    }
}

/// The text of an optional string.
pub open spec fn text_of(o: Option<String>) -> Option<Seq<char>> {
    match o {
        Some(s) => Some(s@),
        None => None,
    }
}

impl TodoView {
    /// The item after an edit at time `now`: each given field replaces the
    /// old one, the others stay.
    pub open spec fn edited(
        self,
        title: Option<Seq<char>>,
        description: Option<Seq<char>>,
        completed: Option<bool>,
        now: u64,
    ) -> TodoView {
        TodoView {
            title: match title {
                Some(t) => t,
                None => self.title,
            },
            description: match description {
                Some(d) => d,
                None => self.description,
            },
            completed: match completed {
                Some(c) => c,
                None => self.completed,
            },
            updated_at: now,
            ..self
        }
    }
}

impl Todo {
    /// A copy of this item.
    pub fn duplicate(&self) -> (r: Todo)
        ensures
            r@ == self@,
    {
        Todo {
            id: self.id,
            title: self.title.clone(),
            description: self.description.clone(),
            completed: self.completed,
            created_at: self.created_at,
            updated_at: self.updated_at,
        }
    }
}

/// The to-do items, by identifier; identifiers are allocated from 1 on and
/// never reused, also after a deletion.
pub struct TodoList {
    todos: Vec<Todo>,
    next_id: u64,
}

impl View for TodoList {
    type V = Map<u64, TodoView>;

    open spec fn view(&self) -> Map<u64, TodoView> {
        map_of(self.pairs())
    }
}

impl TodoList {
    pub closed spec fn pairs(&self) -> Seq<(u64, TodoView)> {
        self.todos@.map_values(|t: Todo| (t.id, t@))
    }

    /// The identifier that the next created item receives.
    pub closed spec fn spec_next_id(&self) -> u64 {
        self.next_id
    }

    pub closed spec fn wf(&self) -> bool {
        &&& distinct_keys(self.pairs())
        &&& self.next_id >= 1
        &&& forall|i: int|
            #![trigger self.todos@[i]]
            0 <= i < self.todos@.len() ==> 1 <= self.todos@[i].id < self.next_id
    }

    /// Every stored identifier lies below the next one, and each item
    /// carries its own identifier.
    pub proof fn lemma_ids(&self)
        requires
            self.wf(),
        ensures
            self@.dom().finite(),
            forall|id: u64| #[trigger] self@.contains_key(id) ==> 1 <= id < self.spec_next_id(),
            forall|id: u64| #[trigger] self@.contains_key(id) ==> self@[id].id == id,
    {
        lemma_map_of_keys(self.pairs(), 0);
        assert forall|id: u64| #[trigger] self@.contains_key(id) implies 1 <= id
            < self.spec_next_id() && self@[id].id == id by {
            lemma_map_of_keys(self.pairs(), id);
            let j = choose|j: int| 0 <= j < self.pairs().len() && self.pairs()[j].0 == id;
            assert(self.todos@[j].id == id);
            lemma_map_of_value(self.pairs(), j);
        }
    }

    /// An empty list.
    pub fn new() -> (r: TodoList)
        ensures
            r.wf(),
            r@ == Map::<u64, TodoView>::empty(),
            r.spec_next_id() == 1,
    {
        let r = TodoList { todos: Vec::new(), next_id: 1 };
        assert(r.pairs() =~= Seq::<(u64, TodoView)>::empty());
        r
    }

    /// The identifier that the next created item receives.
    pub fn next_id(&self) -> (r: u64)
        ensures
            r == self.spec_next_id(),
    {
        self.next_id
    }

    fn find(&self, id: u64) -> (r: Option<usize>)
        ensures
            match r {
                Some(i) => i < self.todos@.len() && self.todos@[i as int].id == id,
                None => forall|j: int| 0 <= j < self.todos@.len() ==> self.todos@[j].id != id,
            },
    {
        let mut i: usize = 0;
        while i < self.todos.len()
            invariant
                0 <= i <= self.todos@.len(),
                forall|j: int| 0 <= j < i ==> self.todos@[j].id != id,
            decreases self.todos@.len() - i,
        {
            if self.todos[i].id == id {
                return Some(i);
            }
            i = i + 1;
        }
        None
    }

    proof fn lemma_find(&self, id: u64, r: Option<usize>)
        requires
            self.wf(),
            match r {
                Some(i) => i < self.todos@.len() && self.todos@[i as int].id == id,
                None => forall|j: int| 0 <= j < self.todos@.len() ==> self.todos@[j].id != id,
            },
        ensures
            r is Some <==> self@.contains_key(id),
            r matches Some(i) ==> self@[id] == self.todos@[i as int]@,
    {
        lemma_map_of_keys(self.pairs(), id);
        if let Some(i) = r {
            assert(self.pairs()[i as int].0 == id);
            lemma_map_of_value(self.pairs(), i as int);
        } else {
            if self@.contains_key(id) {
                let j = choose|j: int| 0 <= j < self.pairs().len() && self.pairs()[j].0 == id;
                assert(self.todos@[j].id == id);
            }
        }
    }

    /// Creates an open item at time `now` under the next identifier.
    pub fn create_todo(&mut self, now: u64, title: String, description: String) -> (r: Todo)
        requires
            old(self).wf(),
            old(self).spec_next_id() < u64::MAX,
        ensures
            final(self).wf(),
            r@ == (TodoView {
                id: old(self).spec_next_id(),
                title: title@,
                description: description@,
                completed: false,
                created_at: now,
                updated_at: now,
            }),
            !old(self)@.contains_key(r.id),
            final(self)@ == old(self)@.insert(r.id, r@),
            final(self).spec_next_id() == old(self).spec_next_id() + 1,
    {
        proof {
            self.lemma_ids();
        }
        let id = self.next_id;
        let t = Todo { id, title, description, completed: false, created_at: now, updated_at: now };
        let r = t.duplicate();
        let ghost s = self.pairs();
        self.todos.push(t);
        self.next_id = id + 1;
        proof {
            assert(self.pairs() =~= s.push((id, r@)));
            assert(self.pairs().drop_last() =~= s);
            assert forall|i: int, j: int| 0 <= i < j < self.pairs().len() implies self.pairs()[i].0
                != self.pairs()[j].0 by {
                if j == s.len() {
                    assert(self.todos@[i] == old(self).todos@[i]);
                }
            }
            assert forall|i: int|
                #![trigger self.todos@[i]]
                0 <= i < self.todos@.len() implies 1 <= self.todos@[i].id < self.next_id by {
                if i < s.len() {
                    assert(self.todos@[i] == old(self).todos@[i]);
                }
            }
        }
        r
    }

    /// The item with identifier `id`, if any.
    pub fn get_todo(&self, id: u64) -> (r: Option<Todo>)
        requires
            self.wf(),
        ensures
            match r {
                Some(t) => self@.contains_key(id) && t@ == self@[id],
                None => !self@.contains_key(id),
            },
    {
        let f = self.find(id);
        proof {
            self.lemma_find(id, f);
        }
        match f {
            Some(i) => Some(self.todos[i].duplicate()),
            None => None,
        }
    }

    /// Replaces the given fields of item `id` and stamps it with `now`;
    /// `None` for an unknown item.
    pub fn update_todo(
        &mut self,
        id: u64,
        now: u64,
        title: Option<String>,
        description: Option<String>,
        completed: Option<bool>,
    ) -> (r: Option<Todo>)
        requires
            old(self).wf(),
        ensures
            final(self).wf(),
            final(self).spec_next_id() == old(self).spec_next_id(),
            match r {
                Some(t) => {
                    &&& old(self)@.contains_key(id)
                    &&& t@ == old(self)@[id].edited(
                        text_of(title),
                        text_of(description),
                        completed,
                        now,
                    )
                    &&& final(self)@ == old(self)@.insert(id, t@)
                },
                None => !old(self)@.contains_key(id) && final(self)@ == old(self)@,
            },
    {
        let f = self.find(id);
        proof {
            self.lemma_find(id, f);
        }
        match f {
            None => None,
            Some(i) => {
                let ghost tv = text_of(title);
                let ghost dv = text_of(description);
                let cur = &self.todos[i];
                let t = Todo {
                    id: cur.id,
                    title: match title {
                        Some(x) => x,
                        None => cur.title.clone(),
                    },
                    description: match description {
                        Some(x) => x,
                        None => cur.description.clone(),
                    },
                    completed: match completed {
                        Some(c) => c,
                        None => cur.completed,
                    },
                    created_at: cur.created_at,
                    updated_at: now,
                };
                assert(t@ == old(self)@[id].edited(tv, dv, completed, now));
                let r = t.duplicate();
                self.replace_at(i, t);
                Some(r)
            },
        }
    }

    /// Flips the completion of item `id` and stamps it with `now`; `None`
    /// for an unknown item.
    pub fn toggle_todo(&mut self, id: u64, now: u64) -> (r: Option<Todo>)
        requires
            old(self).wf(),
        ensures
            final(self).wf(),
            final(self).spec_next_id() == old(self).spec_next_id(),
            match r {
                Some(t) => {
                    &&& old(self)@.contains_key(id)
                    &&& t@ == old(self)@[id].edited(
                        None,
                        None,
                        Some(!old(self)@[id].completed),
                        now,
                    )
                    &&& final(self)@ == old(self)@.insert(id, t@)
                },
                None => !old(self)@.contains_key(id) && final(self)@ == old(self)@,
            },
    {
        let f = self.find(id);
        proof {
            self.lemma_find(id, f);
        }
        match f {
            None => None,
            Some(i) => {
                let cur = &self.todos[i];
                let t = Todo {
                    id: cur.id,
                    title: cur.title.clone(),
                    description: cur.description.clone(),
                    completed: !cur.completed,
                    created_at: cur.created_at,
                    updated_at: now,
                };
                let r = t.duplicate();
                self.replace_at(i, t);
                Some(r)
            },
        }
    }

    fn replace_at(&mut self, i: usize, t: Todo)
        requires
            old(self).wf(),
            i < old(self).todos@.len(),
            t.id == old(self).todos@[i as int].id,
        ensures
            final(self).wf(),
            final(self).next_id == old(self).next_id,
            final(self)@ == old(self)@.insert(t.id, t@),
    {
        let ghost s = self.pairs();
        let ghost tv = t@;
        proof {
            lemma_map_of_update(s, i as int, tv);
        }
        self.todos.set(i, t);
        proof {
            assert(self.pairs() =~= s.update(i as int, (s[i as int].0, tv)));
            assert forall|j: int|
                #![trigger self.todos@[j]]
                0 <= j < self.todos@.len() implies 1 <= self.todos@[j].id < self.next_id by {
                assert(self.todos@[j].id == old(self).todos@[j].id);
            }
        }
    }

    /// Removes item `id`; returns whether it was there.
    pub fn delete_todo(&mut self, id: u64) -> (r: bool)
        requires
            old(self).wf(),
        ensures
            final(self).wf(),
            final(self).spec_next_id() == old(self).spec_next_id(),
            r == old(self)@.contains_key(id),
            final(self)@ == old(self)@.remove(id),
    {
        let f = self.find(id);
        proof {
            self.lemma_find(id, f);
        }
        match f {
            None => {
                assert(self@ =~= old(self)@.remove(id));
                false
            },
            Some(i) => {
                let ghost s = self.pairs();
                proof {
                    lemma_map_of_remove(s, i as int);
                }
                self.todos.remove(i);
                proof {
                    assert(self.pairs() =~= s.remove(i as int));
                    assert forall|j: int|
                        #![trigger self.todos@[j]]
                        0 <= j < self.todos@.len() implies 1 <= self.todos@[j].id < self.next_id by {
                        if j < i {
                            assert(self.todos@[j] == old(self).todos@[j]);
                        } else {
                            assert(self.todos@[j] == old(self).todos@[j + 1]);
                        }
                    }
                }
                true
            },
        }
    }

    /// The stored items that `keep` selects, each once.
    fn collect(&self, pick_all: bool, completed: bool) -> (r: Vec<Todo>)
        requires
            self.wf(),
        ensures
            forall|k: int|
                #![trigger r@[k]]
                0 <= k < r@.len() ==> self@.contains_key(r@[k].id) && self@[r@[k].id] == r@[k]@
                    && (pick_all || r@[k].completed == completed),
            forall|id: u64|
                #[trigger] self@.contains_key(id) && (pick_all || self@[id].completed == completed)
                    ==> exists|k: int| 0 <= k < r@.len() && r@[k].id == id,
            forall|a: int, b: int| 0 <= a < b < r@.len() ==> r@[a].id != r@[b].id,
    {
        let ghost p = self.pairs();
        let mut out: Vec<Todo> = Vec::new();
        let ghost mut src: Seq<int> = Seq::empty();
        let mut i: usize = 0;
        while i < self.todos.len()
            invariant
                self.wf(),
                p == self.pairs(),
                0 <= i <= self.todos@.len(),
                src.len() == out@.len(),
                forall|k: int|
                    #![trigger src[k]]
                    0 <= k < src.len() ==> 0 <= src[k] < i && out@[k]@ == self.todos@[src[k]]@
                        && (pick_all || out@[k].completed == completed),
                forall|a: int, b: int| 0 <= a < b < src.len() ==> src[a] < src[b],
                forall|j: int|
                    #![trigger self.todos@[j]]
                    0 <= j < i && (pick_all || self.todos@[j].completed == completed) ==> exists|k: int|
                        0 <= k < src.len() && src[k] == j,
            decreases self.todos@.len() - i,
        {
            if pick_all || self.todos[i].completed == completed {
                let ghost prev = out@;
                out.push(self.todos[i].duplicate());
                proof {
                    let old_src = src;
                    src = src.push(i as int);
                    assert forall|k: int|
                        #![trigger src[k]]
                        0 <= k < src.len() implies 0 <= src[k] < i + 1 && out@[k]@
                            == self.todos@[src[k]]@ && (pick_all || out@[k].completed
                            == completed) by {
                        if k < old_src.len() {
                            assert(old_src[k] == src[k]);
                            assert(prev[k] == out@[k]);
                        }
                    }
                    assert forall|j: int|
                        #![trigger self.todos@[j]]
                        0 <= j < i + 1 && (pick_all || self.todos@[j].completed == completed)
                            implies exists|k: int| 0 <= k < src.len() && src[k] == j by {
                        if j < i {
                            assert(self.todos@[j] == self.todos@[j]);
                            let k = choose|k: int| 0 <= k < old_src.len() && old_src[k] == j;
                            assert(src[k] == j);
                        } else {
                            assert(src[src.len() - 1] == j);
                        }
                    }
                }
            }
            i = i + 1;
        }
        proof {
            assert forall|k: int|
                #![trigger out@[k]]
                0 <= k < out@.len() implies self@.contains_key(out@[k].id) && self@[out@[k].id]
                    == out@[k]@ && (pick_all || out@[k].completed == completed) by {
                assert(p[src[k]].0 == out@[k].id);
                lemma_map_of_value(p, src[k]);
            }
            assert forall|id: u64|
                #[trigger] self@.contains_key(id) && (pick_all || self@[id].completed == completed)
                    implies exists|k: int| 0 <= k < out@.len() && out@[k].id == id by {
                lemma_map_of_keys(p, id);
                let j = choose|j: int| 0 <= j < p.len() && p[j].0 == id;
                lemma_map_of_value(p, j);
                assert(self.todos@[j].id == id);
                let k = choose|k: int| 0 <= k < src.len() && src[k] == j;
                assert(out@[k].id == id);
            }
            assert forall|a: int, b: int| 0 <= a < b < out@.len() implies out@[a].id
                != out@[b].id by {
                assert(src[a] < src[b]);
                assert(p[src[a]].0 == out@[a].id);
                assert(p[src[b]].0 == out@[b].id);
            }
        }
        out
    }

    /// Every stored item, each once.
    pub fn get_all_todos(&self) -> (r: Vec<Todo>)
        requires
            self.wf(),
        ensures
            forall|k: int|
                #![trigger r@[k]]
                0 <= k < r@.len() ==> self@.contains_key(r@[k].id) && self@[r@[k].id] == r@[k]@,
            forall|id: u64|
                #[trigger] self@.contains_key(id) ==> exists|k: int| 0 <= k < r@.len() && r@[k].id == id,
            forall|a: int, b: int| 0 <= a < b < r@.len() ==> r@[a].id != r@[b].id,
    {
        self.collect(true, false)
    }

    /// The stored items whose completion is `completed`, each once.
    pub fn get_todos_by_status(&self, completed: bool) -> (r: Vec<Todo>)
        requires
            self.wf(),
        ensures
            forall|k: int|
                #![trigger r@[k]]
                0 <= k < r@.len() ==> self@.contains_key(r@[k].id) && self@[r@[k].id] == r@[k]@
                    && r@[k].completed == completed,
            forall|id: u64|
                #[trigger] self@.contains_key(id) && self@[id].completed == completed ==> exists|k: int|
                    0 <= k < r@.len() && r@[k].id == id,
            forall|a: int, b: int| 0 <= a < b < r@.len() ==> r@[a].id != r@[b].id,
    {
        self.collect(false, completed)
    }

    /// The number of stored items.
    pub fn get_todo_count(&self) -> (r: u64)
        requires
            self.wf(),
        ensures
            r == self@.dom().len(),
    {
        proof {
            lemma_map_of_len(self.pairs());
        }
        self.todos.len() as u64
    }
}

} // verus!
