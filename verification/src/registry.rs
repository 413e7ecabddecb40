//! The open connections, by connection id.
use vstd::prelude::*;

verus! {

/// Open connections keyed by id; an id is listed at most once.
pub struct ConnectionRegistry<T> {
    entries: Vec<(String, T)>,
}

/// The entry for `key` in a list of keyed entries (the first one).
pub open spec fn entry_for<T>(entries: Seq<(String, T)>, key: Seq<char>) -> Option<T>
    decreases entries.len(),
{
    if entries.len() == 0 {
        None
    } else if entries[0].0@ == key {
        Some(entries[0].1)
    } else {
        entry_for(entries.drop_first(), key)
    }
}

proof fn lemma_entry_for_index<T>(entries: Seq<(String, T)>, key: Seq<char>, i: int)
    requires
        0 <= i < entries.len(),
        entries[i].0@ == key,
        forall|k: int| 0 <= k < i ==> entries[k].0@ != key,
    ensures
        entry_for(entries, key) == Some(entries[i].1),
    decreases i,
{
    if i > 0 {
        lemma_entry_for_index(entries.drop_first(), key, i - 1);
    }
}

proof fn lemma_entry_for_absent<T>(entries: Seq<(String, T)>, key: Seq<char>)
    requires
        forall|k: int| 0 <= k < entries.len() ==> entries[k].0@ != key,
    ensures
        entry_for(entries, key) is None,
    decreases entries.len(),
{
    if entries.len() > 0 {
        lemma_entry_for_absent(entries.drop_first(), key);
    }
}

proof fn lemma_entry_for_unique<T>(entries: Seq<(String, T)>, key: Seq<char>, i: int)
    requires
        0 <= i < entries.len(),
        entries[i].0@ == key,
        forall|a: int, b: int|
            0 <= a < b < entries.len() ==> (#[trigger] entries[a]).0@ != (#[trigger] entries[b]).0@,
    ensures
        entry_for(entries, key) == Some(entries[i].1),
{
    assert forall|k: int| 0 <= k < i implies entries[k].0@ != key by {
        assert(entries[k].0@ != entries[i].0@);
    }
    lemma_entry_for_index(entries, key, i);
}

impl<T> ConnectionRegistry<T> {
    /// Every id is listed once.
    pub closed spec fn wf(&self) -> bool {
        forall|a: int, b: int|
            0 <= a < b < self.entries@.len() ==> (#[trigger] self.entries@[a]).0@ != (
            #[trigger] self.entries@[b]).0@
    }

    /// The connection registered under `id`.
    pub closed spec fn lookup(&self, id: Seq<char>) -> Option<T> {
        entry_for(self.entries@, id)
    }

    /// An empty registry.
    pub fn new() -> (r: Self)
        ensures
            r.wf(),
            forall|id: Seq<char>| r.lookup(id) is None,
    {
        ConnectionRegistry { entries: Vec::new() }
    }

    fn position(&self, id: &String) -> (r: Option<usize>)
        requires
            self.wf(),
        ensures
            match r {
                Some(i) => i < self.entries@.len() && self.entries@[i as int].0@ == id@
                    && self.lookup(id@) == Some(self.entries@[i as int].1),
                None => self.lookup(id@) is None && forall|k: int|
                    0 <= k < self.entries@.len() ==> self.entries@[k].0@ != id@,
            },
    {
        let mut i: usize = 0;
        while i < self.entries.len()
            invariant
                i <= self.entries.len(),
                forall|k: int| 0 <= k < i ==> self.entries@[k].0@ != id@,
            decreases self.entries.len() - i,
        {
            if self.entries[i].0 == *id {
                proof {
                    lemma_entry_for_index(self.entries@, id@, i as int);
                }
                return Some(i);
            }
            i = i + 1;
        }
        proof {
            lemma_entry_for_absent(self.entries@, id@);
        }
        None
    }

    /// Registers `value` under `id`, replacing the connection held there.
    pub fn insert(&mut self, id: String, value: T)
        requires
            old(self).wf(),
        ensures
            final(self).wf(),
            final(self).lookup(id@) == Some(value),
            forall|other: Seq<char>| other != id@ ==> final(self).lookup(other) == old(self).lookup(other),
    {
        match self.position(&id) {
            Some(i) => {
                let ghost key = id@;
                let ghost before = self.entries@;
                self.entries.set(i, (id, value));
                proof {
                    let after = self.entries@;
                    assert forall|a: int, b: int|
                        0 <= a < b < after.len() implies (#[trigger] after[a]).0@ != (
                        #[trigger] after[b]).0@ by {
                        assert(before[a].0@ != before[b].0@);
                    }
                    lemma_entry_for_unique(after, key, i as int);
                    assert forall|other: Seq<char>| other != key implies entry_for(after, other)
                        == entry_for(before, other) by {
                        let found = exists|k: int| 0 <= k < before.len() && before[k].0@ == other;
                        if found {
                            let k = choose|k: int| 0 <= k < before.len() && before[k].0@ == other;
                            lemma_entry_for_unique(before, other, k);
                            assert(after[k] == before[k]);
                            lemma_entry_for_unique(after, other, k);
                        } else {
                            lemma_entry_for_absent(before, other);
                            lemma_entry_for_absent(after, other);
                        }
                    }
                }
            },
            None => {
                let ghost key = id@;
                let ghost before = self.entries@;
                self.entries.push((id, value));
                proof {
                    let after = self.entries@;
                    assert forall|a: int, b: int|
                        0 <= a < b < after.len() implies (#[trigger] after[a]).0@ != (
                        #[trigger] after[b]).0@ by {
                        if b < before.len() {
                            assert(before[a].0@ != before[b].0@);
                        } else {
                            assert(after[a] == before[a]);
                        }
                    }
                    lemma_entry_for_unique(after, key, before.len() as int);
                    assert forall|other: Seq<char>| other != key implies entry_for(after, other)
                        == entry_for(before, other) by {
                        let found = exists|k: int| 0 <= k < before.len() && before[k].0@ == other;
                        if found {
                            let k = choose|k: int| 0 <= k < before.len() && before[k].0@ == other;
                            lemma_entry_for_unique(before, other, k);
                            assert(after[k] == before[k]);
                            lemma_entry_for_unique(after, other, k);
                        } else {
                            lemma_entry_for_absent(before, other);
                            assert forall|k: int| 0 <= k < after.len() implies after[k].0@ != other by {
                                if k < before.len() {
                                    assert(after[k] == before[k]);
                                }
                            }
                            lemma_entry_for_absent(after, other);
                        }
                    }
                }
            },
        }
    }

    /// The connection registered under `id`.
    pub fn get(&self, id: &str) -> (r: Option<&T>)
        requires
            self.wf(),
        ensures
            match r {
                Some(v) => self.lookup(id@) == Some(*v),
                None => self.lookup(id@) is None,
            },
    {
        let key = id.to_owned();
        match self.position(&key) {
            Some(i) => Some(&self.entries[i].1),
            None => None,
        }
    }

    /// Removes the connection registered under `id` and hands it back.
    pub fn remove(&mut self, id: &str) -> (r: Option<T>)
        requires
            old(self).wf(),
        ensures
            final(self).wf(),
            r == old(self).lookup(id@),
            final(self).lookup(id@) is None,
            forall|other: Seq<char>| other != id@ ==> final(self).lookup(other) == old(self).lookup(other),
    {
        let key = id.to_owned();
        match self.position(&key) {
            Some(i) => {
                let ghost before = self.entries@;
                let entry = self.entries.remove(i);
                proof {
                    let after = self.entries@;
                    assert(after =~= before.remove(i as int));
                    assert forall|a: int, b: int|
                        0 <= a < b < after.len() implies (#[trigger] after[a]).0@ != (
                        #[trigger] after[b]).0@ by {
                        let a0 = if a < i { a } else { a + 1 };
                        let b0 = if b < i { b } else { b + 1 };
                        assert(after[a] == before[a0]);
                        assert(after[b] == before[b0]);
                        assert(before[a0].0@ != before[b0].0@);
                    }
                    assert forall|k: int| 0 <= k < after.len() implies after[k].0@ != id@ by {
                        let k0 = if k < i { k } else { k + 1 };
                        assert(after[k] == before[k0]);
                        assert(before[k0].0@ != before[i as int].0@);
                    }
                    lemma_entry_for_absent(after, id@);
                    assert forall|other: Seq<char>| other != id@ implies entry_for(after, other)
                        == entry_for(before, other) by {
                        let found = exists|k: int| 0 <= k < before.len() && before[k].0@ == other;
                        if found {
                            let k = choose|k: int| 0 <= k < before.len() && before[k].0@ == other;
                            lemma_entry_for_unique(before, other, k);
                            let k1 = if k < i { k } else { k - 1 };
                            assert(k != i);
                            assert(after[k1] == before[k]);
                            lemma_entry_for_unique(after, other, k1);
                        } else {
                            lemma_entry_for_absent(before, other);
                            assert forall|k: int| 0 <= k < after.len() implies after[k].0@ != other by {
                                let k0 = if k < i { k } else { k + 1 };
                                assert(after[k] == before[k0]);
                            }
                            lemma_entry_for_absent(after, other);
                        }
                    }
                }
                Some(entry.1)
            },
            None => None,
        }
    }
}

} // verus!
