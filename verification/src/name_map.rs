//! A finite map from names (strings) to values, kept as a vector of
//! entries with distinct names.

use vstd::prelude::*;

verus! {

/// Names of a list of entries, in order.
pub open spec fn entry_names<V>(entries: Seq<(String, V)>) -> Seq<Seq<char>> {
    entries.map_values(|e: (String, V)| e.0@)
}

/// Map from names to values.
pub struct NameMap<V> {
    entries: Vec<(String, V)>,
    contents: Ghost<Map<Seq<char>, V>>,
}

impl<V> View for NameMap<V> {
    type V = Map<Seq<char>, V>;

    closed spec fn view(&self) -> Map<Seq<char>, V> {
        self.contents@
    }
}

impl<V> NameMap<V> {
    /// The entries agree with the map and hold each name once.
    pub closed spec fn wf(&self) -> bool {
        &&& entry_names(self.entries@).no_duplicates()
        &&& self.contents@.dom() == entry_names(self.entries@).to_set()
        &&& forall|i: int|
            0 <= i < self.entries@.len() ==> #[trigger] self.contents@[self.entries@[i].0@]
                == self.entries@[i].1
    }

    /// A valid map holds finitely many names.
    pub proof fn lemma_finite(&self)
        requires
            self.wf(),
        ensures
            self@.dom().finite(),
    {
        broadcast use vstd::seq_lib::seq_to_set_is_finite;

        assert(entry_names(self.entries@).to_set().finite());
    }

    pub fn new() -> (r: Self)
        ensures
            r.wf(),
            r@ == Map::<Seq<char>, V>::empty(),
    {
        let r = NameMap { entries: Vec::new(), contents: Ghost(Map::empty()) };
        assert(entry_names(r.entries@) =~= Seq::<Seq<char>>::empty());
        assert(r.contents@.dom() =~= entry_names(r.entries@).to_set());
        r
    }

    /// Position of the entry named `name`.
    fn find(&self, name: &String) -> (r: Option<usize>)
        requires
            self.wf(),
        ensures
            match r {
                Some(i) => i < self.entries@.len() && self.entries@[i as int].0@ == name@,
                None => !self@.contains_key(name@),
            },
    {
        let mut i: usize = 0;
        while i < self.entries.len()
            invariant
                i <= self.entries@.len(),
                self.wf(),
                forall|j: int| 0 <= j < i ==> #[trigger] self.entries@[j].0@ != name@,
            decreases self.entries.len() - i,
        {
            if self.entries[i].0 == *name {
                return Some(i);
            }
            i = i + 1;
        }
        proof {
            if self@.contains_key(name@) {
                assert(entry_names(self.entries@).contains(name@));
                let j = choose|j: int|
                    0 <= j < entry_names(self.entries@).len() && entry_names(self.entries@)[j]
                        == name@;
                assert(self.entries@[j].0@ == name@);
            }
        }
        None
    }

    /// Number of entries.
    pub fn len(&self) -> (r: usize)
        requires
            self.wf(),
        ensures
            r == self@.len(),
    {
        proof {
            entry_names(self.entries@).unique_seq_to_set();
        }
        self.entries.len()
    }

    /// Whether `name` has an entry.
    pub fn contains(&self, name: &String) -> (r: bool)
        requires
            self.wf(),
        ensures
            r == self@.contains_key(name@),
    {
        match self.find(name) {
            Some(i) => {
                assert(entry_names(self.entries@)[i as int] == name@);
                true
            },
            None => false,
        }
    }

    /// The value stored under `name`.
    pub fn get(&self, name: &String) -> (r: Option<&V>)
        requires
            self.wf(),
        ensures
            match r {
                Some(v) => self@.contains_key(name@) && *v == self@[name@],
                None => !self@.contains_key(name@),
            },
    {
        match self.find(name) {
            Some(i) => {
                assert(entry_names(self.entries@)[i as int] == name@);
                Some(&self.entries[i].1)
            },
            None => None,
        }
    }

    /// Store `value` under `name`, replacing any previous value.
    pub fn insert(&mut self, name: String, value: V)
        requires
            old(self).wf(),
        ensures
            final(self).wf(),
            final(self)@ == old(self)@.insert(name@, value),
    {
        let ghost key = name@;
        let ghost old_entries = self.entries@;
        let ghost old_names = entry_names(self.entries@);
        let ghost old_contents = self.contents@;
        let ghost mut pos: int = 0;
        match self.find(&name) {
            Some(i) => {
                proof {
                    assert(old_names[i as int] == key);
                    pos = i as int;
                }
                self.entries.set(i, (name, value));
                proof {
                    assert(entry_names(self.entries@) =~= old_names);
                }
            },
            None => {
                self.entries.push((name, value));
                proof {
                    pos = old_entries.len() as int;
                    assert(entry_names(self.entries@) =~= old_names.push(key));
                    assert(!old_names.contains(key));
                }
            },
        }
        self.contents = Ghost(self.contents@.insert(key, value));
        proof {
            let new_names = entry_names(self.entries@);
            assert forall|k: Seq<char>| #[trigger] self.contents@.dom().contains(k) <==> new_names.contains(k) by {
                if k == key {
                    if new_names.len() == old_names.len() {
                        let i = choose|i: int| 0 <= i < old_entries.len() && old_entries[i].0@ == key;
                        assert(new_names[i] == key);
                    } else {
                        assert(new_names[new_names.len() - 1] == key);
                    }
                } else {
                    if old_names.contains(k) {
                        let j = choose|j: int| 0 <= j < old_names.len() && old_names[j] == k;
                        assert(new_names[j] == k);
                    }
                    if new_names.contains(k) {
                        let j = choose|j: int| 0 <= j < new_names.len() && new_names[j] == k;
                        assert(old_names[j] == k);
                    }
                }
            }
            assert(self.contents@.dom() =~= entry_names(self.entries@).to_set());
            assert forall|i: int| 0 <= i < self.entries@.len() implies #[trigger] self.contents@[self.entries@[i].0@]
                == self.entries@[i].1 by {
                if self.entries@[i].0@ != key {
                    assert(self.entries@[i] == old_entries[i]);
                    assert(old_names[i] == self.entries@[i].0@);
                    assert(old_contents[old_entries[i].0@] == old_entries[i].1);
                } else {
                    if i != pos {
                        if pos < old_entries.len() {
                            assert(old_names[i] == old_names[pos]);
                        } else {
                            assert(old_names[i] == key);
                            assert(old_names.contains(key));
                        }
                    }
                    assert(self.entries@[pos] == (name, value));
                }
            }
        }
    }

    /// Remove the entry named `name`, returning its value.
    pub fn remove(&mut self, name: &String) -> (r: Option<V>)
        requires
            old(self).wf(),
        ensures
            final(self).wf(),
            final(self)@ == old(self)@.remove(name@),
            match r {
                Some(v) => old(self)@.contains_key(name@) && v == old(self)@[name@],
                None => !old(self)@.contains_key(name@),
            },
    {
        let ghost old_entries = self.entries@;
        let ghost old_names = entry_names(self.entries@);
        match self.find(name) {
            Some(i) => {
                let (_, v) = self.entries.remove(i);
                self.contents = Ghost(self.contents@.remove(name@));
                proof {
                    assert(old_names[i as int] == name@);
                    let new_names = entry_names(self.entries@);
                    assert(new_names =~= old_names.remove(i as int));
                    assert forall|a: int, b: int|
                        0 <= a < b < new_names.len() implies new_names[a] != new_names[b] by {
                        let oa = if a < i { a } else { a + 1 };
                        let ob = if b < i { b } else { b + 1 };
                        assert(new_names[a] == old_names[oa]);
                        assert(new_names[b] == old_names[ob]);
                    }
                    assert forall|k: Seq<char>| #[trigger] self.contents@.dom().contains(k) <==> new_names.to_set().contains(k) by {
                        if self.contents@.dom().contains(k) {
                            assert(old_names.contains(k));
                            let j = choose|j: int| 0 <= j < old_names.len() && old_names[j] == k;
                            assert(j != i);
                            if j < i {
                                assert(new_names[j] == k);
                            } else {
                                assert(new_names[j - 1] == k);
                            }
                        }
                        if new_names.to_set().contains(k) {
                            let j = choose|j: int| 0 <= j < new_names.len() && new_names[j] == k;
                            let oj = if j < i { j } else { j + 1 };
                            assert(old_names[oj] == k);
                            assert(oj != i);
                        }
                    }
                    assert(self.contents@.dom() =~= new_names.to_set());
                    assert forall|j: int| 0 <= j < self.entries@.len() implies #[trigger] self.contents@[self.entries@[j].0@]
                        == self.entries@[j].1 by {
                        let oj = if j < i { j } else { j + 1 };
                        assert(self.entries@[j] == old_entries[oj]);
                        assert(old_names[oj] != old_names[i as int]);
                    }
                    assert(v == old_entries[i as int].1);
                }
                Some(v)
            },
            None => {
                proof {
                    assert(self.contents@.remove(name@) =~= self.contents@);
                }
                None
            },
        }
    }

    /// All names, each once, in unspecified order.
    pub fn names(&self) -> (r: Vec<String>)
        requires
            self.wf(),
        ensures
            r@.map_values(|s: String| s@).to_set() == self@.dom(),
            r@.map_values(|s: String| s@).no_duplicates(),
            r@.len() == self@.len(),
    {
        let mut out: Vec<String> = Vec::new();
        let mut i: usize = 0;
        while i < self.entries.len()
            invariant
                i <= self.entries@.len(),
                self.wf(),
                out@.map_values(|s: String| s@) =~= entry_names(self.entries@).subrange(0, i as int),
            decreases self.entries.len() - i,
        {
            let ghost before = out@;
            let name = self.entries[i].0.clone();
            out.push(name);
            proof {
                assert(out@ == before.push(name));
                assert(out@.map_values(|s: String| s@) =~= before.map_values(|s: String| s@).push(name@));
                assert(entry_names(self.entries@)[i as int] == self.entries@[i as int].0@);
            }
            i = i + 1;
        }
        proof {
            assert(entry_names(self.entries@).subrange(0, i as int) =~= entry_names(self.entries@));
            entry_names(self.entries@).unique_seq_to_set();
        }
        out
    }
}

} // verus!
