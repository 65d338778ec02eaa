use vstd::prelude::*;

use crate::response::{opt_view, Response, ResponseView};

verus! {

/// The cached answer for `k` in `m`, if there is one.
pub open spec fn cached(m: Map<Seq<char>, ResponseView>, k: Seq<char>) -> Option<ResponseView> {
    if m.contains_key(k) {
        Some(m[k])
    } else {
        None
    }
}

/// A second `take` of a key, with no `put` in between, finds nothing.
pub proof fn lemma_take_twice(m: Map<Seq<char>, ResponseView>, k: Seq<char>)
    ensures
        cached(m.remove(k), k) is None,
{
}

/// Of two `put`s of one key, a `take` returns the later value.
pub proof fn lemma_put_overwrites(
    m: Map<Seq<char>, ResponseView>,
    k: Seq<char>,
    v1: ResponseView,
    v2: ResponseView,
)
    ensures
        cached(m.insert(k, v1).insert(k, v2), k) == Some(v2),
{
}

/// Answers of the current session keyed by the exact query text, each read at
/// most once.
pub struct ResponseCache {
    entries: Vec<(String, Response)>,
    model: Ghost<Map<Seq<char>, ResponseView>>,
}

impl View for ResponseCache {
    type V = Map<Seq<char>, ResponseView>;

    closed spec fn view(&self) -> Map<Seq<char>, ResponseView> {
        self.model@
    }
}

impl ResponseCache {
    /// Keys are distinct and the entries are exactly the model.
    pub closed spec fn wf(&self) -> bool {
        &&& forall|i: int, j: int|
            0 <= i < j < self.entries@.len() ==> self.entries@[i].0@ != self.entries@[j].0@
        &&& forall|i: int|
            0 <= i < self.entries@.len() ==> {
                &&& #[trigger] self.model@.contains_key(self.entries@[i].0@)
                &&& self.model@[self.entries@[i].0@] == self.entries@[i].1@
            }
        &&& forall|k: Seq<char>| #[trigger]
            self.model@.contains_key(k) ==> exists|i: int|
                0 <= i < self.entries@.len() && self.entries@[i].0@ == k
    }

    pub fn new() -> (r: ResponseCache)
        ensures
            r.wf(),
            r@ == Map::<Seq<char>, ResponseView>::empty(),
    {
        ResponseCache { entries: Vec::new(), model: Ghost(Map::empty()) }
    }

    /// Inserts or overwrites the answer for `query`.
    pub fn put(&mut self, query: String, response: Response)
        requires
            old(self).wf(),
        ensures
            final(self).wf(),
            final(self)@ == old(self)@.insert(query@, response@),
    {
        let ghost k = query@;
        let ghost v = response@;
        let mut i: usize = 0;
        while i < self.entries.len()
            invariant
                self.wf(),
                *self == *old(self),
                k == query@,
                v == response@,
                0 <= i <= self.entries@.len(),
                forall|j: int| 0 <= j < i ==> self.entries@[j].0@ != k,
            decreases self.entries@.len() - i,
        {
            if self.entries[i].0.eq(&query) {
                let ghost before = self.entries@;
                self.entries.set(i, (query, response));
                self.model = Ghost(self.model@.insert(k, v));
                assert forall|p: int| 0 <= p < self.entries@.len() && p != i implies #[trigger] self.entries@[p] == before[p] by {}
                assert forall|a: Seq<char>| #[trigger] self.model@.contains_key(a) implies exists|j: int|
                    0 <= j < self.entries@.len() && self.entries@[j].0@ == a by {
                    if a != k {
                        let j = choose|j: int| 0 <= j < before.len() && before[j].0@ == a;
                        assert(self.entries@[j].0@ == a);
                    } else {
                        assert(self.entries@[i as int].0@ == a);
                    }
                }
                return;
            }
            i = i + 1;
        }
        let ghost before = self.entries@;
        self.entries.push((query, response));
        self.model = Ghost(self.model@.insert(k, v));
        assert forall|a: Seq<char>| #[trigger] self.model@.contains_key(a) implies exists|j: int|
            0 <= j < self.entries@.len() && self.entries@[j].0@ == a by {
            if a != k {
                let j = choose|j: int| 0 <= j < before.len() && before[j].0@ == a;
                assert(self.entries@[j].0@ == a);
            } else {
                assert(self.entries@[before.len() as int].0@ == a);
            }
        }
    }

    /// Removes and returns the answer for `query`, if any.
    pub fn take(&mut self, query: &String) -> (r: Option<Response>)
        requires
            old(self).wf(),
        ensures
            final(self).wf(),
            final(self)@ == old(self)@.remove(query@),
            opt_view(r) == cached(old(self)@, query@),
    {
        let ghost k = query@;
        let mut i: usize = 0;
        while i < self.entries.len()
            invariant
                self.wf(),
                *self == *old(self),
                k == query@,
                0 <= i <= self.entries@.len(),
                forall|j: int| 0 <= j < i ==> self.entries@[j].0@ != k,
            decreases self.entries@.len() - i,
        {
            if self.entries[i].0.eq(query) {
                let ghost before = self.entries@;
                let ghost old_model = self.model@;
                let (_key, value) = self.entries.remove(i);
                self.model = Ghost(self.model@.remove(k));
                assert forall|a: Seq<char>| #[trigger] self.model@.contains_key(a) implies exists|j: int|
                    0 <= j < self.entries@.len() && self.entries@[j].0@ == a by {
                    let j = choose|j: int| 0 <= j < before.len() && before[j].0@ == a;
                    if j < i {
                        assert(self.entries@[j].0@ == a);
                    } else {
                        assert(j != i);
                        assert(self.entries@[j - 1].0@ == a);
                    }
                }
                assert forall|p: int|
                    0 <= p < self.entries@.len() implies {
                        &&& #[trigger] self.model@.contains_key(self.entries@[p].0@)
                        &&& self.model@[self.entries@[p].0@] == self.entries@[p].1@
                    } by {
                    if p < i {
                        assert(self.entries@[p] == before[p]);
                    } else {
                        assert(self.entries@[p] == before[p + 1]);
                    }
                }
                assert(old_model.contains_key(k) && old_model[k] == value@);
                return Some(value);
            }
            i = i + 1;
        }
        assert(!self.model@.contains_key(k));
        assert(self.model@.remove(k) =~= self.model@);
        None
    }
}

} // verus!
