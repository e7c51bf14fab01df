use vstd::prelude::*;

verus! {

/// Whether no name occurs twice in `entries`.
pub open spec fn names_unique<V>(entries: Seq<(String, V)>) -> bool {
    forall|i: int, j: int|
        0 <= i < entries.len() && 0 <= j < entries.len() && i != j ==> #[trigger] entries[i].0@
            != #[trigger] entries[j].0@
}

/// Whether some entry carries `name`.
pub open spec fn has_name<V>(entries: Seq<(String, V)>, name: Seq<char>) -> bool {
    exists|i: int| 0 <= i < entries.len() && #[trigger] entries[i].0@ == name
}

/// The map that a list of named entries describes.
pub open spec fn entries_map<V>(entries: Seq<(String, V)>) -> Map<Seq<char>, V> {
    Map::new(
        |k: Seq<char>| has_name(entries, k),
        |k: Seq<char>| entries[choose|i: int| 0 <= i < entries.len() && #[trigger] entries[i].0@ == k].1,
    )
}

/// In a list without repeated names, the entry at `i` is what the map holds
/// under its name.
pub proof fn lemma_entry_in_map<V>(entries: Seq<(String, V)>, i: int)
    requires
        names_unique(entries),
        0 <= i < entries.len(),
    ensures
        entries_map(entries).contains_key(entries[i].0@),
        entries_map(entries)[entries[i].0@] == entries[i].1,
{
    let k = entries[i].0@;
    assert(has_name(entries, k));
    let j = choose|j: int| 0 <= j < entries.len() && #[trigger] entries[j].0@ == k;
    assert(entries[j].0@ == entries[i].0@);
}

/// Replacing the value of one entry of a list without repeated names
/// replaces the value the map holds under that entry's name.
pub proof fn lemma_replace_value<V>(entries: Seq<(String, V)>, i: int, value: V)
    requires
        names_unique(entries),
        0 <= i < entries.len(),
    ensures
        names_unique(entries.update(i, (entries[i].0, value))),
        entries_map(entries.update(i, (entries[i].0, value))) == entries_map(entries).insert(entries[i].0@, value),
{
    let e2 = entries.update(i, (entries[i].0, value));
    let key = entries[i].0@;
    assert(names_unique(e2)) by {
        assert forall|a: int, b: int|
            0 <= a < e2.len() && 0 <= b < e2.len() && a != b implies #[trigger] e2[a].0@ != #[trigger] e2[b].0@ by {
            assert(e2[a].0 == entries[a].0 && e2[b].0 == entries[b].0);
        }
    }
    assert forall|k: Seq<char>| #![auto] entries_map(e2).contains_key(k) == entries_map(entries).insert(key, value).contains_key(k) by {
        if has_name(e2, k) {
            let j = choose|j: int| 0 <= j < e2.len() && #[trigger] e2[j].0@ == k;
            assert(entries[j].0@ == k);
        }
        if has_name(entries, k) {
            let j = choose|j: int| 0 <= j < entries.len() && #[trigger] entries[j].0@ == k;
            assert(e2[j].0@ == k);
        }
    }
    assert forall|k: Seq<char>| entries_map(e2).contains_key(k) implies #[trigger] entries_map(e2)[k]
        == entries_map(entries).insert(key, value)[k] by {
        let j = choose|j: int| 0 <= j < e2.len() && #[trigger] e2[j].0@ == k;
        lemma_entry_in_map(e2, j);
        if k != key {
            assert(j != i);
            assert(entries[j].0@ == k);
            lemma_entry_in_map(entries, j);
        } else {
            assert(j == i);
        }
    }
    assert(entries_map(e2) =~= entries_map(entries).insert(key, value));
}

/// A list of `n` entries with distinct names describes a map with `n` keys.
pub proof fn lemma_map_len<V>(entries: Seq<(String, V)>)
    requires
        names_unique(entries),
    ensures
        entries_map(entries).dom().finite(),
        entries_map(entries).dom().len() == entries.len(),
    decreases entries.len(),
{
    if entries.len() == 0 {
        assert(entries_map(entries).dom() =~= Set::<Seq<char>>::empty());
    } else {
        let init = entries.drop_last();
        let last = entries.last();
        assert(names_unique(init)) by {
            assert forall|i: int, j: int|
                0 <= i < init.len() && 0 <= j < init.len() && i != j implies #[trigger] init[i].0@
                != #[trigger] init[j].0@ by {
                assert(init[i] == entries[i] && init[j] == entries[j]);
            }
        }
        lemma_map_len(init);
        assert(!entries_map(init).dom().contains(last.0@)) by {
            if has_name(init, last.0@) {
                let j = choose|j: int| 0 <= j < init.len() && #[trigger] init[j].0@ == last.0@;
                assert(entries[j].0@ == entries[entries.len() - 1].0@);
            }
        }
        assert(entries_map(entries).dom() =~= entries_map(init).dom().insert(last.0@)) by {
            assert forall|k: Seq<char>| #![auto] entries_map(entries).dom().contains(k) == entries_map(init).dom().insert(last.0@).contains(k) by {
                if has_name(entries, k) && k != last.0@ {
                    let j = choose|j: int| 0 <= j < entries.len() && #[trigger] entries[j].0@ == k;
                    assert(init[j].0@ == k);
                }
                if has_name(init, k) {
                    let j = choose|j: int| 0 <= j < init.len() && #[trigger] init[j].0@ == k;
                    assert(entries[j].0@ == k);
                }
                if k == last.0@ {
                    assert(entries[entries.len() - 1].0@ == k);
                }
            }
        }
    }
}

/// A small map from names to values, kept as a list in insertion order in
/// which no name occurs twice.
#[derive(Clone, Debug)]
pub struct NameMap<V> {
    entries: Vec<(String, V)>,
}

impl<V> View for NameMap<V> {
    type V = Map<Seq<char>, V>;

    closed spec fn view(&self) -> Map<Seq<char>, V> {
        entries_map(self.entries@)
    }
}

impl<V> NameMap<V> {
    /// Whether the internal list repeats no name.
    pub closed spec fn wf(&self) -> bool {
        names_unique(self.entries@)
    }

    /// An empty map.
    pub fn new() -> (m: NameMap<V>)
        ensures
            m.wf(),
            m@ == Map::<Seq<char>, V>::empty(),
            m.spec_entries() == Seq::<(String, V)>::empty(),
    {
        let m = NameMap { entries: Vec::new() };
        assert(m@ =~= Map::<Seq<char>, V>::empty());
        m
    }

    /// Position of the entry named `name`, if any.
    fn position(&self, name: &String) -> (r: Option<usize>)
        requires
            self.wf(),
        ensures
            r matches Some(i) ==> i < self.entries@.len() && self.entries@[i as int].0@ == name@,
            r is None ==> !has_name(self.entries@, name@),
    {
        let mut i: usize = 0;
        while i < self.entries.len()
            invariant
                i <= self.entries@.len(),
                forall|j: int| 0 <= j < i ==> self.entries@[j].0@ != name@,
            decreases self.entries@.len() - i,
        {
            if self.entries[i].0 == *name {
                return Some(i);
            }
            i = i + 1;
        }
        None
    }

    /// Store `value` under `name`, replacing what was stored there.
    pub fn insert(&mut self, name: String, value: V)
        requires
            old(self).wf(),
        ensures
            final(self).wf(),
            final(self)@ == old(self)@.insert(name@, value),
            !old(self)@.contains_key(name@) ==> final(self).spec_entries() == old(self).spec_entries().push(
                (name, value),
            ),
    {
        let ghost key = name@;
        match self.position(&name) {
            Some(i) => {
                let ghost old_entries = self.entries@;
                self.entries.set(i, (name, value));
                proof {
                    assert forall|k: Seq<char>| #![auto] self@.contains_key(k) == entries_map(
                    old_entries).insert(key, value).contains_key(k) by {
                        if k == key {
                            assert(self.entries@[i as int].0@ == k);
                        } else if has_name(old_entries, k) {
                            let j = choose|j: int| 0 <= j < old_entries.len() && #[trigger] old_entries[j].0@ == k;
                            assert(self.entries@[j].0@ == k);
                        }
                    }
                    assert forall|k: Seq<char>| self@.contains_key(k) implies #[trigger] self@[k] == entries_map(
                    old_entries).insert(key, value)[k] by {
                        let j = choose|j: int| 0 <= j < self.entries@.len() && #[trigger] self.entries@[j].0@ == k;
                        lemma_entry_in_map(self.entries@, j);
                        if k != key {
                            lemma_entry_in_map(old_entries, j);
                        }
                    }
                    assert(self@ =~= entries_map(old_entries).insert(key, value));
                }
            },
            None => {
                let ghost old_entries = self.entries@;
                self.entries.push((name, value));
                proof {
                    let n = old_entries.len() as int;
                    assert forall|k: Seq<char>| #![auto] self@.contains_key(k) == entries_map(
                    old_entries).insert(key, value).contains_key(k) by {
                        if k == key {
                            assert(self.entries@[n].0@ == k);
                        } else if has_name(old_entries, k) {
                            let j = choose|j: int| 0 <= j < old_entries.len() && #[trigger] old_entries[j].0@ == k;
                            assert(self.entries@[j].0@ == k);
                        } else if has_name(self.entries@, k) {
                            let j = choose|j: int| 0 <= j < self.entries@.len() && #[trigger] self.entries@[j].0@ == k;
                            assert(j != n);
                            assert(old_entries[j].0@ == k);
                        }
                    }
                    assert forall|k: Seq<char>| self@.contains_key(k) implies #[trigger] self@[k] == entries_map(
                    old_entries).insert(key, value)[k] by {
                        let j = choose|j: int| 0 <= j < self.entries@.len() && #[trigger] self.entries@[j].0@ == k;
                        lemma_entry_in_map(self.entries@, j);
                        if k != key {
                            assert(j != n);
                            lemma_entry_in_map(old_entries, j);
                        }
                    }
                    assert(self@ =~= entries_map(old_entries).insert(key, value));
                }
            },
        }
    }

    /// The value stored under `name`, if any.
    pub fn get(&self, name: &String) -> (r: Option<&V>)
        requires
            self.wf(),
        ensures
            r matches Some(v) ==> self@.contains_key(name@) && *v == self@[name@],
            r is None ==> !self@.contains_key(name@),
    {
        match self.position(name) {
            Some(i) => {
                proof { lemma_entry_in_map(self.entries@, i as int); }
                Some(&self.entries[i].1)
            },
            None => None,
        }
    }

    /// The value stored under `name`, if any, for changing in place.
    pub fn get_mut(&mut self, name: &String) -> (r: Option<&mut V>)
        requires
            old(self).wf(),
        ensures
            match r {
                Some(v) => {
                    &&& old(self)@.contains_key(name@)
                    &&& *v == old(self)@[name@]
                    &&& final(self).wf()
                    &&& final(self)@ == old(self)@.insert(name@, *final(v))
                    &&& final(self).spec_entries().len() == old(self).spec_entries().len()
                },
                None => !old(self)@.contains_key(name@) && *final(self) == *old(self),
            },
    {
        match self.position(name) {
            Some(i) => {
                proof { lemma_entry_in_map(self.entries@, i as int); }
                let ghost old_entries = self.entries@;
                let entry = &mut self.entries[i];
                let value = &mut entry.1;
                proof { lemma_replace_value(old_entries, i as int, *final(value)); }
                Some(value)
            },
            None => None,
        }
    }

    /// Whether a value is stored under `name`.
    pub fn contains(&self, name: &String) -> (b: bool)
        requires
            self.wf(),
        ensures
            b == self@.contains_key(name@),
    {
        self.position(name).is_some()
    }

    /// Number of names in the map.
    pub fn len(&self) -> (n: usize)
        requires
            self.wf(),
        ensures
            n == self@.dom().len(),
            self@.dom().finite(),
    {
        proof { lemma_map_len(self.entries@); }
        self.entries.len()
    }

    /// Every stored name with its value, each once, in insertion order.
    pub fn iter(&self) -> (v: Vec<(&str, &V)>)
        requires
            self.wf(),
        ensures
            v@.len() == self@.dom().len(),
            forall|i: int| 0 <= i < v@.len() ==> self@.contains_key(#[trigger] v@[i].0@) && self@[v@[i].0@] == *v@[i].1,
            forall|k: Seq<char>| self@.contains_key(k) ==> exists|i: int| 0 <= i < v@.len() && #[trigger] v@[i].0@ == k,
    {
        proof { lemma_map_len(self.entries@); }
        let mut v: Vec<(&str, &V)> = Vec::new();
        let mut i: usize = 0;
        while i < self.entries.len()
            invariant
                self.wf(),
                i <= self.entries@.len(),
                v@.len() == i,
                forall|j: int| 0 <= j < i ==> (#[trigger] v@[j]).0@ == self.entries@[j].0@ && *v@[j].1 == self.entries@[j].1,
            decreases self.entries@.len() - i,
        {
            let e = &self.entries[i];
            v.push((e.0.as_str(), &e.1));
            i = i + 1;
        }
        proof {
            assert forall|j: int| 0 <= j < v@.len() implies self@.contains_key(#[trigger] v@[j].0@) && self@[v@[j].0@] == *v@[j].1 by {
                lemma_entry_in_map(self.entries@, j);
            }
            assert forall|k: Seq<char>| self@.contains_key(k) implies exists|j: int| 0 <= j < v@.len() && #[trigger] v@[j].0@ == k by {
                let j = choose|j: int| 0 <= j < self.entries@.len() && #[trigger] self.entries@[j].0@ == k;
                assert(v@[j].0@ == k);
            }
        }
        v
    }

    /// The entries in insertion order.
    pub fn entries(&self) -> (v: &[(String, V)])
        ensures
            v@ == self.spec_entries(),
    {
        self.entries.as_slice()
    }

    /// Each entry of the list is what the map holds under its name.
    pub proof fn lemma_entry_in_view(&self, i: int)
        requires
            self.wf(),
            0 <= i < self.spec_entries().len(),
        ensures
            self@.contains_key(self.spec_entries()[i].0@),
            self@[self.spec_entries()[i].0@] == self.spec_entries()[i].1,
    {
        lemma_entry_in_map(self.entries@, i);
    }

    /// The entries list the map: each entry is what the map holds under its
    /// name, no name occurs twice, and there are as many entries as names.
    pub proof fn lemma_entries_describe_map(&self)
        requires
            self.wf(),
        ensures
            forall|i: int|
                0 <= i < self.spec_entries().len() ==> self@.contains_key(#[trigger] self.spec_entries()[i].0@)
                    && self@[self.spec_entries()[i].0@] == self.spec_entries()[i].1,
            forall|i: int, j: int|
                0 <= i < self.spec_entries().len() && 0 <= j < self.spec_entries().len() && i != j
                    ==> #[trigger] self.spec_entries()[i].0@ != #[trigger] self.spec_entries()[j].0@,
            self@.dom().finite(),
            self@.dom().len() == self.spec_entries().len(),
    {
        assert forall|i: int| 0 <= i < self.spec_entries().len() implies self@.contains_key(
            #[trigger] self.spec_entries()[i].0@,
        ) && self@[self.spec_entries()[i].0@] == self.spec_entries()[i].1 by {
            lemma_entry_in_map(self.entries@, i);
        }
        lemma_map_len(self.entries@);
    }

    /// The list behind the map.
    pub closed spec fn spec_entries(&self) -> Seq<(String, V)> {
        self.entries@
    }
}

} // verus!
