//! The in-memory index: each live key with the span of the record that holds its value.
use vstd::prelude::*;

verus! {

/// The exact byte range of one record in the log.
#[derive(Clone, Copy, Debug, PartialEq, Eq)]
pub struct Pointer {
    pub pos: u64,
    pub len: u64,
}

/// A byte range, over mathematical integers.
pub ghost struct Span {
    pub start: nat,
    pub len: nat,
}

impl View for Pointer {
    type V = Span;

    open spec fn view(&self) -> Span {
        Span { start: self.pos as nat, len: self.len as nat }
    }
}

/// A map from keys to pointers, each key at most once.
pub struct Index {
    entries: Vec<(String, Pointer)>,
    model: Ghost<Map<Seq<char>, Span>>,
}

impl View for Index {
    type V = Map<Seq<char>, Span>;

    closed spec fn view(&self) -> Map<Seq<char>, Span> {
        self.model@
    }
}

impl Index {
    /// The entries hold each key of the map once, with its span.
    pub closed spec fn wf(&self) -> bool {
        &&& forall|i: int|
            0 <= i < self.entries@.len() ==> {
                &&& self.model@.contains_key(#[trigger] self.entries@[i].0@)
                &&& self.model@[self.entries@[i].0@] == self.entries@[i].1@
            }
        &&& forall|k: Seq<char>|
            #![trigger self.model@.contains_key(k)]
            self.model@.contains_key(k) ==> exists|i: int|
                0 <= i < self.entries@.len() && #[trigger] self.entries@[i].0@ == k
        &&& forall|i: int, j: int|
            0 <= i < self.entries@.len() && 0 <= j < self.entries@.len() && i != j
                ==> self.entries@[i].0@ != self.entries@[j].0@
    }

    /// An index with no key.
    pub fn new() -> (r: Index)
        ensures
            r.wf(),
            r@ == Map::<Seq<char>, Span>::empty(),
    {
        Index { entries: Vec::new(), model: Ghost(Map::empty()) }
    }

    /// The position of `key` among the entries, if it is there.
    fn find(&self, key: &String) -> (r: Option<usize>)
        requires
            self.wf(),
        ensures
            r is Some <==> self@.contains_key(key@),
            r matches Some(i) ==> i < self.entries@.len() && self.entries@[i as int].0@ == key@,
    {
        let mut i: usize = 0;
        while i < self.entries.len()
            invariant
                self.wf(),
                i <= self.entries@.len(),
                forall|j: int| 0 <= j < i ==> self.entries@[j].0@ != key@,
            decreases self.entries@.len() - i,
        {
            if self.entries[i].0 == *key {
                return Some(i);
            }
            i = i + 1;
        }
        None
    }

    /// The pointer held for `key`.
    pub fn lookup(&self, key: &String) -> (r: Option<Pointer>)
        requires
            self.wf(),
        ensures
            r is Some <==> self@.contains_key(key@),
            r matches Some(p) ==> p@ == self@[key@],
    {
        match self.find(key) {
            Some(i) => Some(self.entries[i].1),
            None => None,
        }
    }

    /// Points `key` at `p`; returns the pointer it replaced.
    pub fn insert(&mut self, key: String, p: Pointer) -> (r: Option<Pointer>)
        requires
            old(self).wf(),
        ensures
            final(self).wf(),
            final(self)@ == old(self)@.insert(key@, p@),
            r is Some <==> old(self)@.contains_key(key@),
            r matches Some(q) ==> q@ == old(self)@[key@],
    {
        let ghost k = key@;
        match self.find(&key) {
            Some(i) => {
                let q = self.entries[i].1;
                self.entries[i] = (key, p);
                self.model = Ghost(self.model@.insert(k, p@));
                proof {
                    assert forall|k2: Seq<char>| #[trigger]
                        self.model@.contains_key(k2) implies exists|j: int|
                        0 <= j < self.entries@.len() && #[trigger] self.entries@[j].0@ == k2 by {
                        if k2 != k {
                            let j = choose|j: int|
                                0 <= j < old(self).entries@.len() && #[trigger] old(
                                    self,
                                ).entries@[j].0@ == k2;
                            assert(self.entries@[j].0@ == k2);
                        } else {
                            assert(self.entries@[i as int].0@ == k2);
                        }
                    }
                }
                Some(q)
            },
            None => {
                self.entries.push((key, p));
                self.model = Ghost(self.model@.insert(k, p@));
                proof {
                    let n = old(self).entries@.len() as int;
                    assert(self.entries@[n].0@ == k);
                    assert forall|k2: Seq<char>| #[trigger]
                        self.model@.contains_key(k2) implies exists|j: int|
                        0 <= j < self.entries@.len() && #[trigger] self.entries@[j].0@ == k2 by {
                        if k2 != k {
                            let j = choose|j: int|
                                0 <= j < old(self).entries@.len() && #[trigger] old(
                                    self,
                                ).entries@[j].0@ == k2;
                            assert(self.entries@[j].0@ == k2);
                        }
                    }
                }
                None
            },
        }
    }

    /// Drops `key`; returns the pointer it held.
    pub fn remove(&mut self, key: &String) -> (r: Option<Pointer>)
        requires
            old(self).wf(),
        ensures
            final(self).wf(),
            final(self)@ == old(self)@.remove(key@),
            r is Some <==> old(self)@.contains_key(key@),
            r matches Some(q) ==> q@ == old(self)@[key@],
    {
        match self.find(key) {
            Some(i) => {
                let ghost last = (self.entries@.len() - 1) as int;
                let e = self.entries.swap_remove(i);
                self.model = Ghost(self.model@.remove(key@));
                proof {
                    assert forall|k2: Seq<char>| #[trigger]
                        self.model@.contains_key(k2) implies exists|j: int|
                        0 <= j < self.entries@.len() && #[trigger] self.entries@[j].0@ == k2 by {
                        let j = choose|j: int|
                            0 <= j < old(self).entries@.len() && #[trigger] old(
                                self,
                            ).entries@[j].0@ == k2;
                        if j == last {
                            assert(self.entries@[i as int].0@ == k2);
                        } else {
                            assert(self.entries@[j].0@ == k2);
                        }
                    }
                }
                Some(e.1)
            },
            None => {
                assert(self.model@.remove(key@) =~= self.model@);
                None
            },
        }
    }
}

} // verus!
