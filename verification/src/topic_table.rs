use vstd::prelude::*;

verus! {

/// No key occurs twice among `es`.
pub open spec fn keys_distinct<V>(es: Seq<(String, V)>) -> bool {
    forall|i: int, j: int|
        0 <= i < es.len() && 0 <= j < es.len() && i != j ==> #[trigger] es[i].0@ != #[trigger] es[j].0@
}

/// The map from key (as characters) to value that the entries `es` hold.
pub open spec fn entries_map<V>(es: Seq<(String, V)>) -> Map<Seq<char>, V> {
    Map::new(
        |k: Seq<char>| exists|i: int| 0 <= i < es.len() && #[trigger] es[i].0@ == k,
        |k: Seq<char>| es[choose|i: int| 0 <= i < es.len() && #[trigger] es[i].0@ == k].1,
    )
}

proof fn lemma_entry_at<V>(es: Seq<(String, V)>, i: int)
    requires
        keys_distinct(es),
        0 <= i < es.len(),
    ensures
        entries_map(es).contains_key(es[i].0@),
        entries_map(es)[es[i].0@] == es[i].1,
{
    let k = es[i].0@;
    assert(es[i].0@ == k);
    let j = choose|j: int| 0 <= j < es.len() && #[trigger] es[j].0@ == k;
    assert(j == i);
}

/// A map keyed by topic, kept as a list of entries in which no topic occurs
/// twice; the entries stay in the order their topics were first inserted.
pub struct TopicTable<V> {
    entries: Vec<(String, V)>,
}

impl<V> View for TopicTable<V> {
    type V = Map<Seq<char>, V>;

    closed spec fn view(&self) -> Map<Seq<char>, V> {
        entries_map(self.entries@)
    }
}

impl<V> TopicTable<V> {
    /// No topic occurs twice.
    pub closed spec fn wf(&self) -> bool {
        keys_distinct(self.entries@)
    }

    /// The entries in the order their topics were first inserted.
    pub closed spec fn spec_entries(&self) -> Seq<(String, V)> {
        self.entries@
    }

    /// The entries hold exactly the map.
    pub proof fn lemma_entries(&self)
        requires
            self.wf(),
        ensures
            keys_distinct(self.spec_entries()),
            forall|i: int|
                0 <= i < self.spec_entries().len() ==> self@.contains_key(
                    #[trigger] self.spec_entries()[i].0@,
                ) && self@[self.spec_entries()[i].0@] == self.spec_entries()[i].1,
            forall|k: Seq<char>|
                #[trigger] self@.contains_key(k) ==> exists|i: int|
                    0 <= i < self.spec_entries().len() && #[trigger] self.spec_entries()[i].0@ == k,
    {
        assert forall|i: int| 0 <= i < self.spec_entries().len() implies self@.contains_key(
            #[trigger] self.spec_entries()[i].0@,
        ) && self@[self.spec_entries()[i].0@] == self.spec_entries()[i].1 by {
            lemma_entry_at(self.entries@, i);
        }
        assert forall|k: Seq<char>| #[trigger] self@.contains_key(k) implies exists|i: int|
            0 <= i < self.spec_entries().len() && #[trigger] self.spec_entries()[i].0@ == k by {
            let i = choose|i: int| 0 <= i < self.entries@.len() && #[trigger] self.entries@[i].0@ == k;
            assert(self.spec_entries()[i].0@ == k);
        }
    }

    /// An empty table.
    pub fn new() -> (r: Self)
        ensures
            r.wf(),
            r@ == Map::<Seq<char>, V>::empty(),
            r.spec_entries().len() == 0,
    {
        let r = TopicTable { entries: Vec::new() };
        proof {
            assert(r@ =~= Map::<Seq<char>, V>::empty());
        }
        r
    }

    /// The number of topics held.
    pub fn len(&self) -> (r: usize)
        ensures
            r == self.spec_entries().len(),
    {
        self.entries.len()
    }

    /// The entries in the order their topics were first inserted.
    pub fn entries(&self) -> (r: &Vec<(String, V)>)
        ensures
            r@ == self.spec_entries(),
    {
        &self.entries
    }

    fn find(&self, key: &String) -> (r: Option<usize>)
        ensures
            match r {
                Some(i) => i < self.entries@.len() && self.entries@[i as int].0@ == key@,
                None => forall|i: int|
                    0 <= i < self.entries@.len() ==> #[trigger] self.entries@[i].0@ != key@,
            },
    {
        let mut i: usize = 0;
        while i < self.entries.len()
            invariant
                i <= self.entries@.len(),
                forall|j: int| 0 <= j < i ==> #[trigger] self.entries@[j].0@ != key@,
            decreases self.entries@.len() - i,
        {
            if self.entries[i].0 == *key {
                return Some(i);
            }
            i = i + 1;
        }
        None
    }

    /// The value held under `key`, if any.
    pub fn get(&self, key: &str) -> (r: Option<&V>)
        requires
            self.wf(),
        ensures
            r == (if self@.contains_key(key@) {
                Some(&self@[key@])
            } else {
                None
            }),
    {
        let owned = key.to_owned();
        match self.find(&owned) {
            Some(i) => {
                proof {
                    lemma_entry_at(self.entries@, i as int);
                }
                Some(&self.entries[i].1)
            },
            None => None,
        }
    }

    /// Holds `value` under `key`, in place of the value held there before.
    pub fn insert(&mut self, key: String, value: V)
        requires
            old(self).wf(),
        ensures
            final(self).wf(),
            final(self)@ == old(self)@.insert(key@, value),
            forall|i: int|
                0 <= i < old(self).spec_entries().len() ==> #[trigger] final(self).spec_entries()[i].0@ == old(self).spec_entries()[i].0@,
            final(self).spec_entries().len() == old(self).spec_entries().len() + (if old(self)@.contains_key(key@) {
                0int
            } else {
                1int
            }),
    {
        let ghost es = self.entries@;
        match self.find(&key) {
            Some(i) => {
                let ghost e = (key, value);
                self.entries.remove(i);
                self.entries.insert(i, (key, value));
                proof {
                    assert(self.entries@ =~= es.update(i as int, e));
                    lemma_entry_at(es, i as int);
                    let ns = self.entries@;
                    assert forall|a: int, b: int|
                        0 <= a < ns.len() && 0 <= b < ns.len() && a != b implies #[trigger] ns[a].0@
                        != #[trigger] ns[b].0@ by {
                        if a != i && b != i {
                            assert(es[a].0@ != es[b].0@);
                        } else if a == i {
                            assert(es[i as int].0@ != es[b].0@);
                        } else {
                            assert(es[a].0@ != es[i as int].0@);
                        }
                    }
                    assert forall|k: Seq<char>| #[trigger] entries_map(ns).contains_key(k) == old(self)@.insert(e.0@, e.1).contains_key(k) by {
                        if exists|j: int| 0 <= j < ns.len() && #[trigger] ns[j].0@ == k {
                            let j = choose|j: int| 0 <= j < ns.len() && #[trigger] ns[j].0@ == k;
                            if j != i {
                                assert(es[j].0@ == k);
                            }
                        }
                        if exists|j: int| 0 <= j < es.len() && #[trigger] es[j].0@ == k {
                            let j = choose|j: int| 0 <= j < es.len() && #[trigger] es[j].0@ == k;
                            assert(ns[j].0@ == k);
                        }
                    }
                    assert forall|k: Seq<char>| #[trigger] entries_map(ns).contains_key(k) implies entries_map(ns)[k]
                        == old(self)@.insert(e.0@, e.1)[k] by {
                        let j = choose|j: int| 0 <= j < ns.len() && #[trigger] ns[j].0@ == k;
                        lemma_entry_at(ns, j);
                        if j != i {
                            lemma_entry_at(es, j);
                        }
                    }
                    assert(self@ =~= old(self)@.insert(e.0@, e.1));
                }
            },
            None => {
                let ghost e = (key, value);
                self.entries.push((key, value));
                proof {
                    let ns = self.entries@;
                    assert(ns == es.push(e));
                    assert forall|a: int, b: int|
                        0 <= a < ns.len() && 0 <= b < ns.len() && a != b implies #[trigger] ns[a].0@
                        != #[trigger] ns[b].0@ by {
                        if a < es.len() && b < es.len() {
                            assert(es[a].0@ != es[b].0@);
                        } else if a < es.len() {
                            assert(es[a].0@ != e.0@);
                        } else {
                            assert(es[b].0@ != e.0@);
                        }
                    }
                    assert(!old(self)@.contains_key(e.0@));
                    assert forall|k: Seq<char>| #[trigger] entries_map(ns).contains_key(k) == old(self)@.insert(e.0@, e.1).contains_key(k) by {
                        if exists|j: int| 0 <= j < es.len() && #[trigger] es[j].0@ == k {
                            let j = choose|j: int| 0 <= j < es.len() && #[trigger] es[j].0@ == k;
                            assert(ns[j].0@ == k);
                        }
                        if k == e.0@ {
                            assert(ns[es.len() as int].0@ == k);
                        }
                    }
                    assert forall|k: Seq<char>| #[trigger] entries_map(ns).contains_key(k) implies entries_map(ns)[k]
                        == old(self)@.insert(e.0@, e.1)[k] by {
                        let j = choose|j: int| 0 <= j < ns.len() && #[trigger] ns[j].0@ == k;
                        lemma_entry_at(ns, j);
                        if j < es.len() {
                            lemma_entry_at(es, j);
                        }
                    }
                    assert(self@ =~= old(self)@.insert(e.0@, e.1));
                }
            },
        }
    }
}


impl<V: Copy> TopicTable<V> {
    /// The entries, copied out in the order their topics were first inserted.
    pub fn to_vec(&self) -> (r: Vec<(String, V)>)
        requires
            self.wf(),
        ensures
            r@.len() == self.spec_entries().len(),
            forall|i: int|
                0 <= i < r@.len() ==> (#[trigger] r@[i]).0@ == self.spec_entries()[i].0@ && r@[i].1
                    == self.spec_entries()[i].1,
            keys_distinct(r@),
            entries_map(r@) == self@,
    {
        let mut r: Vec<(String, V)> = Vec::new();
        let mut i: usize = 0;
        while i < self.entries.len()
            invariant
                i <= self.entries@.len(),
                r@.len() == i,
                forall|j: int|
                    0 <= j < i ==> (#[trigger] r@[j]).0@ == self.entries@[j].0@ && r@[j].1
                        == self.entries@[j].1,
            decreases self.entries@.len() - i,
        {
            r.push((self.entries[i].0.clone(), self.entries[i].1));
            i = i + 1;
        }
        proof {
            let es = self.entries@;
            assert forall|a: int, b: int|
                0 <= a < r@.len() && 0 <= b < r@.len() && a != b implies #[trigger] r@[a].0@
                != #[trigger] r@[b].0@ by {
                assert(es[a].0@ != es[b].0@);
            }
            assert forall|k: Seq<char>| #[trigger] entries_map(r@).contains_key(k) == self@.contains_key(k) by {
                if exists|j: int| 0 <= j < r@.len() && #[trigger] r@[j].0@ == k {
                    let j = choose|j: int| 0 <= j < r@.len() && #[trigger] r@[j].0@ == k;
                    assert(es[j].0@ == k);
                }
                if exists|j: int| 0 <= j < es.len() && #[trigger] es[j].0@ == k {
                    let j = choose|j: int| 0 <= j < es.len() && #[trigger] es[j].0@ == k;
                    assert(r@[j].0@ == k);
                }
            }
            assert forall|k: Seq<char>| #[trigger] entries_map(r@).contains_key(k) implies entries_map(r@)[k] == self@[k] by {
                let j = choose|j: int| 0 <= j < r@.len() && #[trigger] r@[j].0@ == k;
                lemma_entry_at(r@, j);
                lemma_entry_at(es, j);
            }
            assert(entries_map(r@) =~= self@);
        }
        r
    }
}

} // verus!
