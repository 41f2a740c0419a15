use vstd::prelude::*;

verus! {

/// A map from names to values: ports, memory slots, node outputs. It stands
/// where an ordered map keyed by `String` would, whose lookups the verifier
/// knows too little about, and keeps its entries as a list with distinct
/// names in order of first insertion, not in key order.
pub struct Table<V> {
    pub entries: Vec<(String, V)>,
    pub map: Ghost<Map<Seq<char>, V>>,
}

impl<V> View for Table<V> {
    type V = Map<Seq<char>, V>;

    open spec fn view(&self) -> Map<Seq<char>, V> {
        self.map@
    }
}

impl<V> Table<V> {
    /// The number of entries.
    pub open spec fn size(&self) -> nat {
        self.entries@.len()
    }

    /// The name of entry `i`.
    pub open spec fn key(&self, i: int) -> Seq<char> {
        self.entries@[i].0@
    }

    /// The value of entry `i`.
    pub open spec fn val(&self, i: int) -> V {
        self.entries@[i].1
    }

    pub open spec fn wf(&self) -> bool {
        &&& forall|i: int|
            0 <= i < self.entries@.len() ==> #[trigger] self@.contains_key(self.key(i))
                && self@[self.key(i)] == self.val(i)
        &&& forall|k: Seq<char>|
            #[trigger] self@.contains_key(k) ==> exists|i: int|
                0 <= i < self.entries@.len() && self.key(i) == k
        &&& forall|i: int, j: int|
            0 <= i < j < self.entries@.len() ==> self.key(i) != self.key(j)
    }

    pub fn new() -> (r: Self)
        ensures
            r.wf(),
            r@ == Map::<Seq<char>, V>::empty(),
            r.entries@.len() == 0,
    {
        Table { entries: Vec::new(), map: Ghost(Map::empty()) }
    }

    pub fn len(&self) -> (r: usize)
        ensures
            r == self.entries@.len(),
    {
        self.entries.len()
    }

    pub fn is_empty(&self) -> (r: bool)
        requires
            self.wf(),
        ensures
            r == (self@.dom() == Set::<Seq<char>>::empty()),
    {
        if self.entries.len() == 0 {
            assert(self@.dom() =~= Set::<Seq<char>>::empty());
            true
        } else {
            assert(self@.dom().contains(self.key(0)));
            false
        }
    }

    /// The index of the entry named `k`, if there is one.
    pub fn position(&self, k: &String) -> (r: Option<usize>)
        requires
            self.wf(),
        ensures
            r.is_some() == self@.contains_key(k@),
            r.is_some() ==> r.unwrap() < self.entries@.len() && self.key(r.unwrap() as int) == k@,
    {
        let mut i: usize = 0;
        while i < self.entries.len()
            invariant
                self.wf(),
                i <= self.entries@.len(),
                forall|j: int| 0 <= j < i ==> self.key(j) != k@,
            decreases self.entries@.len() - i,
        {
            if self.entries[i].0 == *k {
                assert(self@.contains_key(self.key(i as int)));
                return Some(i);
            }
            i = i + 1;
        }
        proof {
            if self@.contains_key(k@) {
                let j = choose|j: int| 0 <= j < self.entries@.len() && self.key(j) == k@;
            }
        }
        None
    }

    pub fn get(&self, k: &String) -> (r: Option<&V>)
        requires
            self.wf(),
        ensures
            r.is_some() == self@.contains_key(k@),
            r.is_some() ==> *r.unwrap() == self@[k@],
    {
        match self.position(k) {
            Some(i) => Some(&self.entries[i].1),
            None => None,
        }
    }

    pub fn contains_key(&self, k: &String) -> (r: bool)
        requires
            self.wf(),
        ensures
            r == self@.contains_key(k@),
    {
        self.position(k).is_some()
    }

    pub fn key_at(&self, i: usize) -> (r: &String)
        requires
            i < self.entries@.len(),
        ensures
            r@ == self.key(i as int),
    {
        &self.entries[i].0
    }

    pub fn value_at(&self, i: usize) -> (r: &V)
        requires
            i < self.entries@.len(),
        ensures
            *r == self.val(i as int),
    {
        &self.entries[i].1
    }

    /// Sets `k` to `v`, replacing an earlier value of `k`.
    #[verifier::spinoff_prover]
    pub fn insert(&mut self, k: String, v: V)
        requires
            old(self).wf(),
        ensures
            final(self).wf(),
            final(self)@ == old(self)@.insert(k@, v),
    {
        let ghost m = self@.insert(k@, v);
        let ghost kv = k@;
        match self.position(&k) {
            Some(i) => {
                self.entries.set(i, (k, v));
                self.map = Ghost(m);
                assert forall|j: int| 0 <= j < self.entries@.len() implies #[trigger] self@.contains_key(
                    self.key(j),
                ) && self@[self.key(j)] == self.val(j) by {
                    if j != i {
                        assert(old(self).key(j) == self.key(j));
                        assert(old(self)@.contains_key(old(self).key(j)));
                    }
                }
                assert forall|a: int, b: int| 0 <= a < b < self.entries@.len() implies self.key(a)
                    != self.key(b) by {
                    assert(old(self).key(i as int) == kv);
                    if a != i {
                        assert(old(self).key(a) == self.key(a));
                    }
                    if b != i {
                        assert(old(self).key(b) == self.key(b));
                    }
                }
                assert forall|kk: Seq<char>| #[trigger] self@.contains_key(kk) implies exists|j: int|
                    0 <= j < self.entries@.len() && self.key(j) == kk by {
                    if kk != self.key(i as int) {
                        let j = choose|j: int| 0 <= j < old(self).entries@.len() && old(self).key(j) == kk;
                        assert(self.key(j) == kk);
                    }
                }
            },
            None => {
                self.entries.push((k, v));
                self.map = Ghost(m);
                assert forall|j: int| 0 <= j < self.entries@.len() implies #[trigger] self@.contains_key(
                    self.key(j),
                ) && self@[self.key(j)] == self.val(j) by {
                    if j < old(self).entries@.len() {
                        assert(old(self).key(j) == self.key(j));
                        assert(old(self)@.contains_key(old(self).key(j)));
                    }
                }
                assert forall|a: int, b: int| 0 <= a < b < self.entries@.len() implies self.key(a)
                    != self.key(b) by {
                    if b == old(self).entries@.len() {
                        assert(self.key(b) == kv);
                        assert(old(self).key(a) == self.key(a));
                        assert(old(self)@.contains_key(old(self).key(a)));
                    } else {
                        assert(old(self).key(a) == self.key(a));
                        assert(old(self).key(b) == self.key(b));
                    }
                }
                assert forall|kk: Seq<char>| #[trigger] self@.contains_key(kk) implies exists|j: int|
                    0 <= j < self.entries@.len() && self.key(j) == kk by {
                    if kk != self.key(self.entries@.len() - 1) {
                        let j = choose|j: int| 0 <= j < old(self).entries@.len() && old(self).key(j) == kk;
                        assert(self.key(j) == kk);
                    }
                }
            },
        }
    }
}

} // verus!
