//! A map keyed by strings, kept as an association list in insertion order.
//! The registries of the host use it for their name-keyed tables.
use vstd::prelude::*;

verus! {

pub struct StrMap<V> {
    keys: Vec<String>,
    vals: Vec<V>,
    contents: Ghost<Map<Seq<char>, V>>,
}

impl<V> View for StrMap<V> {
    type V = Map<Seq<char>, V>;

    closed spec fn view(&self) -> Map<Seq<char>, V> {
        self.contents@
    }
}

impl<V> StrMap<V> {
    /// The keys are distinct and the entries are exactly the map's contents.
    pub closed spec fn wf(&self) -> bool {
        &&& self.keys@.len() == self.vals@.len()
        &&& forall|i: int, j: int|
            0 <= i < self.keys@.len() && 0 <= j < self.keys@.len() && i != j ==> (#[trigger] self.keys@[i])@
                != (#[trigger] self.keys@[j])@
        &&& forall|k: Seq<char>|
            #[trigger] self.contents@.contains_key(k) <==> exists|i: int|
                0 <= i < self.keys@.len() && (#[trigger] self.keys@[i])@ == k
        &&& forall|i: int|
            0 <= i < self.keys@.len() ==> self.contents@[(#[trigger] self.keys@[i])@] == self.vals@[i]
    }

    /// The number of entries.
    pub closed spec fn size(&self) -> nat {
        self.keys@.len()
    }

    /// The key stored at position `i`.
    pub closed spec fn key_at(&self, i: int) -> Seq<char> {
        self.keys@[i]@
    }

    proof fn lemma_key_index(&self, k: Seq<char>) -> (i: int)
        requires
            self.wf(),
            self@.contains_key(k),
        ensures
            0 <= i < self.size(),
            self.key_at(i) == k,
            self@[k] == self.vals@[i],
    {
        let i = choose|i: int| 0 <= i < self.keys@.len() && (#[trigger] self.keys@[i])@ == k;
        i
    }

    /// The number of entries is the number of keys in the map.
    pub proof fn lemma_size(&self)
        requires
            self.wf(),
        ensures
            self@.dom().finite(),
            self@.dom().len() == self.size(),
    {
        let ks = self.keys@.map_values(|s: String| s@);
        assert(ks.no_duplicates()) by {
            assert forall|i: int, j: int| 0 <= i < ks.len() && 0 <= j < ks.len() && i != j implies ks[i]
                != ks[j] by {
                assert(self.keys@[i]@ != self.keys@[j]@);
            }
        }
        ks.unique_seq_to_set();
        assert forall|k: Seq<char>| self@.dom().contains(k) <==> ks.to_set().contains(k) by {
            if self@.dom().contains(k) {
                let i = self.lemma_key_index(k);
                assert(ks[i] == k);
            }
            if ks.to_set().contains(k) {
                assert(ks.contains(k));
                let i = choose|i: int| 0 <= i < ks.len() && ks[i] == k;
                assert(self.keys@[i]@ == k);
            }
        }
        assert(self@.dom() =~= ks.to_set());
    }

    pub fn new() -> (m: Self)
        ensures
            m.wf(),
            m@ == Map::<Seq<char>, V>::empty(),
    {
        StrMap { keys: Vec::new(), vals: Vec::new(), contents: Ghost(Map::empty()) }
    }

    /// The number of entries (that is, of keys).
    pub fn len(&self) -> (n: usize)
        requires
            self.wf(),
        ensures
            n == self@.dom().len(),
    {
        proof {
            self.lemma_size();
        }
        self.keys.len()
    }

    /// The position of `key`, if it is present.
    pub fn find(&self, key: &str) -> (r: Option<usize>)
        requires
            self.wf(),
        ensures
            r is None <==> !self@.contains_key(key@),
            r matches Some(i) ==> i < self.size() && self.key_at(i as int) == key@,
    {
        let k = key.to_owned();
        let mut i: usize = 0;
        while i < self.keys.len()
            invariant
                self.wf(),
                k@ == key@,
                i <= self.keys@.len(),
                forall|j: int| 0 <= j < i ==> self.keys@[j]@ != key@,
            decreases self.keys@.len() - i,
        {
            if self.keys[i] == k {
                return Some(i);
            }
            i += 1;
        }
        proof {
            if self@.contains_key(key@) {
                let j = self.lemma_key_index(key@);
            }
        }
        None
    }

    /// The value stored at position `i`.
    pub fn value_at(&self, i: usize) -> (v: &V)
        requires
            self.wf(),
            i < self.size(),
        ensures
            self@.contains_key(self.key_at(i as int)),
            *v == self@[self.key_at(i as int)],
    {
        &self.vals[i]
    }

    /// The value of `key`, if it is present.
    pub fn get(&self, key: &str) -> (r: Option<&V>)
        requires
            self.wf(),
        ensures
            r is None <==> !self@.contains_key(key@),
            r matches Some(v) ==> *v == self@[key@],
    {
        match self.find(key) {
            None => None,
            Some(i) => Some(self.value_at(i)),
        }
    }

    /// Replace the value at position `i`, returning the value it held.
    pub fn replace_at(&mut self, i: usize, v: V) -> (prev: V)
        requires
            old(self).wf(),
            i < old(self).size(),
        ensures
            final(self).wf(),
            final(self).size() == old(self).size(),
            forall|j: int| 0 <= j < old(self).size() ==> final(self).key_at(j) == old(self).key_at(j),
            prev == old(self)@[old(self).key_at(i as int)],
            final(self)@ == old(self)@.insert(old(self).key_at(i as int), v),
    {
        let ghost k = self.keys@[i as int]@;
        let mut v = v;
        let ghost new_v = v;
        self.vals.set_and_swap(i, &mut v);
        self.contents = Ghost(self.contents@.insert(k, new_v));
        proof {
            assert forall|kk: Seq<char>|
                #[trigger] self.contents@.contains_key(kk) <==> exists|j: int|
                    0 <= j < self.keys@.len() && (#[trigger] self.keys@[j])@ == kk by {
                assert(self.keys@ == old(self).keys@);
                if kk == k {
                    assert(self.keys@[i as int]@ == kk);
                } else {
                    assert(self.contents@.contains_key(kk) == old(self).contents@.contains_key(kk));
                }
            }
            assert forall|j: int| 0 <= j < self.keys@.len() implies self.contents@[(
            #[trigger] self.keys@[j])@] == self.vals@[j] by {
                if j != i {
                    assert(self.keys@[j]@ != self.keys@[i as int]@);
                }
            }
        }
        v
    }

    /// Insert or overwrite the value of `key`, returning the value it replaced.
    pub fn insert(&mut self, key: String, v: V) -> (prev: Option<V>)
        requires
            old(self).wf(),
        ensures
            final(self).wf(),
            final(self)@ == old(self)@.insert(key@, v),
            prev is None <==> !old(self)@.contains_key(key@),
            prev matches Some(p) ==> p == old(self)@[key@],
    {
        match self.find(key.as_str()) {
            Some(i) => Some(self.replace_at(i, v)),
            None => {
                let ghost k = key@;
                let ghost new_v = v;
                let ghost old_keys = self.keys@;
                self.keys.push(key);
                self.vals.push(v);
                self.contents = Ghost(self.contents@.insert(k, new_v));
                proof {
                    let n = old_keys.len() as int;
                    assert forall|kk: Seq<char>|
                        #[trigger] self.contents@.contains_key(kk) <==> exists|j: int|
                            0 <= j < self.keys@.len() && (#[trigger] self.keys@[j])@ == kk by {
                        if kk == k {
                            assert(self.keys@[n]@ == kk);
                        } else {
                            assert(self.contents@.contains_key(kk) == old(self).contents@.contains_key(kk));
                            if old(self).contents@.contains_key(kk) {
                                let j = choose|j: int| 0 <= j < old_keys.len() && (#[trigger] old_keys[j])@ == kk;
                                assert(self.keys@[j] == old_keys[j]);
                            }
                        }
                        if exists|j: int| 0 <= j < self.keys@.len() && (#[trigger] self.keys@[j])@ == kk {
                            let j = choose|j: int| 0 <= j < self.keys@.len() && (#[trigger] self.keys@[j])@ == kk;
                            if j < n {
                                assert(old_keys[j]@ == kk);
                            }
                        }
                    }
                    assert forall|i: int, j: int|
                        0 <= i < self.keys@.len() && 0 <= j < self.keys@.len() && i != j implies (
                        #[trigger] self.keys@[i])@ != (#[trigger] self.keys@[j])@ by {
                        if i < n && j < n {
                            assert(old_keys[i] == self.keys@[i]);
                            assert(old_keys[j] == self.keys@[j]);
                        } else if i == n {
                            assert(!old(self)@.contains_key(self.keys@[j]@) ==> self.keys@[j]@ != old_keys[j]@);
                            assert(old(self)@.contains_key(old_keys[j]@));
                        } else {
                            assert(old(self)@.contains_key(old_keys[i]@));
                        }
                    }
                    assert forall|j: int| 0 <= j < self.keys@.len() implies self.contents@[(
                    #[trigger] self.keys@[j])@] == self.vals@[j] by {
                        if j < n {
                            assert(old_keys[j] == self.keys@[j]);
                            assert(old(self)@.contains_key(old_keys[j]@));
                        }
                    }
                }
                None
            },
        }
    }
}

} // verus!
