//! The in-memory storage backend: a table-scoped key/value store whose model
//! is a map from (table, key) to the stored value. Tables exist implicitly:
//! they are created on first write and reads of missing tables or keys
//! return the absent value.

use vstd::prelude::*;
use crate::abi::{Value, ValueModel, Kvpair};

verus! {

/// One stored binding.
pub struct StoreEntry {
    pub table: String,
    pub key: String,
    pub value: Value,
}

/// The wire key of an entry in the model.
pub open spec fn entry_key(e: StoreEntry) -> (Seq<char>, Seq<char>) {
    (e.table@, e.key@)
}

/// No two entries bind the same (table, key).
pub open spec fn unique_keys(s: Seq<StoreEntry>) -> bool {
    forall|i: int, j: int|
        0 <= i < j < s.len() ==> entry_key(#[trigger] s[i]) != entry_key(#[trigger] s[j])
}

/// The map a sequence of bindings denotes; later entries win, though under
/// `unique_keys` the order never matters.
pub open spec fn map_of(s: Seq<StoreEntry>) -> Map<(Seq<char>, Seq<char>), ValueModel>
    decreases s.len(),
{
    if s.len() == 0 {
        Map::empty()
    } else {
        map_of(s.drop_last()).insert(entry_key(s.last()), s.last().value@)
    }
}

/// The value a store holds for a key, with `Nil` for absence.
pub open spec fn lookup(
    m: Map<(Seq<char>, Seq<char>), ValueModel>,
    t: Seq<char>,
    k: Seq<char>,
) -> ValueModel {
    if m.contains_key((t, k)) {
        m[(t, k)]
    } else {
        ValueModel::Nil
    }
}

/// A key bound by no entry is absent from the model.
proof fn lemma_map_of_absent(s: Seq<StoreEntry>, t: Seq<char>, k: Seq<char>)
    requires
        forall|i: int| 0 <= i < s.len() ==> entry_key(#[trigger] s[i]) != (t, k),
    ensures
        !map_of(s).contains_key((t, k)),
    decreases s.len(),
{
    if s.len() > 0 {
        assert(entry_key(s.last()) != (t, k));
        lemma_map_of_absent(s.drop_last(), t, k);
    }
}

/// Under unique keys, the entry at `i` gives the model's value for its key.
proof fn lemma_map_of_found(s: Seq<StoreEntry>, i: int)
    requires
        unique_keys(s),
        0 <= i < s.len(),
    ensures
        map_of(s).contains_key(entry_key(s[i])),
        map_of(s)[entry_key(s[i])] == s[i].value@,
    decreases s.len(),
{
    if i == s.len() - 1 {
    } else {
        assert(unique_keys(s.drop_last()));
        lemma_map_of_found(s.drop_last(), i);
        assert(entry_key(s[i]) != entry_key(s.last()));
    }
}

/// Replacing the value at `i` updates the model at that entry's key.
proof fn lemma_map_of_update(s: Seq<StoreEntry>, i: int, e: StoreEntry)
    requires
        unique_keys(s),
        0 <= i < s.len(),
        entry_key(e) == entry_key(s[i]),
    ensures
        map_of(s.update(i, e)) == map_of(s).insert(entry_key(e), e.value@),
    decreases s.len(),
{
    let s2 = s.update(i, e);
    if i == s.len() - 1 {
        assert(s2.drop_last() =~= s.drop_last());
        assert(s2.last() == e);
        assert(map_of(s2) =~= map_of(s).insert(entry_key(e), e.value@));
    } else {
        assert(unique_keys(s.drop_last()));
        assert(s2.drop_last() =~= s.drop_last().update(i, e));
        assert(s2.last() == s.last());
        lemma_map_of_update(s.drop_last(), i, e);
        assert(entry_key(e) != entry_key(s.last()));
        assert(map_of(s2) =~= map_of(s).insert(entry_key(e), e.value@));
    }
}

/// Appending a new binding inserts its key into the model.
proof fn lemma_map_of_push(s: Seq<StoreEntry>, e: StoreEntry)
    ensures
        map_of(s.push(e)) == map_of(s).insert(entry_key(e), e.value@),
{
    assert(s.push(e).drop_last() =~= s);
    assert(s.push(e).last() == e);
}

/// Removing the entry at `i` removes exactly that key from the model.
proof fn lemma_map_of_remove(s: Seq<StoreEntry>, i: int)
    requires
        unique_keys(s),
        0 <= i < s.len(),
    ensures
        map_of(s.remove(i)) == map_of(s).remove(entry_key(s[i])),
    decreases s.len(),
{
    let s2 = s.remove(i);
    if i == s.len() - 1 {
        assert(s2 =~= s.drop_last());
        assert(forall|j: int|
            0 <= j < s.drop_last().len() ==> entry_key(#[trigger] s.drop_last()[j]) != entry_key(
                s[i],
            ));
        lemma_map_of_absent(s.drop_last(), entry_key(s[i]).0, entry_key(s[i]).1);
        assert(map_of(s2) =~= map_of(s).remove(entry_key(s[i])));
    } else {
        assert(unique_keys(s.drop_last()));
        assert(s2.drop_last() =~= s.drop_last().remove(i));
        assert(s2.last() == s.last());
        lemma_map_of_remove(s.drop_last(), i);
        assert(entry_key(s[i]) != entry_key(s.last()));
        assert(map_of(s2) =~= map_of(s).remove(entry_key(s[i])));
    }
}

/// The in-memory storage backend.
pub struct MemTable {
    entries: Vec<StoreEntry>,
}

impl View for MemTable {
    type V = Map<(Seq<char>, Seq<char>), ValueModel>;

    closed spec fn view(&self) -> Map<(Seq<char>, Seq<char>), ValueModel> {
        map_of(self.entries@)
    }
}

impl MemTable {
    /// Internal well-formedness: no key is bound twice.
    pub closed spec fn wf(&self) -> bool {
        unique_keys(self.entries@)
    }

    /// An empty store.
    pub fn new() -> (r: MemTable)
        ensures
            r.wf(),
            r@ == Map::<(Seq<char>, Seq<char>), ValueModel>::empty(),
    {
        MemTable { entries: Vec::new() }
    }

    /// Index of the entry binding (table, key), if any.
    fn find(&self, table: &String, key: &String) -> (r: Option<usize>)
        requires
            self.wf(),
        ensures
            match r {
                Some(i) => i < self.entries@.len() && entry_key(self.entries@[i as int]) == (
                    table@,
                    key@,
                ) && self@.contains_key((table@, key@)) && self@[(table@, key@)]
                    == self.entries@[i as int].value@,
                None => !self@.contains_key((table@, key@)),
            },
    {
        let n = self.entries.len();
        let mut i: usize = 0;
        while i < n
            invariant
                self.wf(),
                i <= n == self.entries@.len(),
                forall|j: int| 0 <= j < i ==> entry_key(#[trigger] self.entries@[j]) != (table@, key@),
            decreases n - i,
        {
            if self.entries[i].table == *table && self.entries[i].key == *key {
                proof {
                    lemma_map_of_found(self.entries@, i as int);
                }
                return Some(i);
            }
            i = i + 1;
        }
        proof {
            lemma_map_of_absent(self.entries@, table@, key@);
        }
        None
    }

    /// Reads one key: the stored value, or nothing when the table or key is
    /// missing.
    pub fn get(&self, table: &String, key: &String) -> (r: Option<Value>)
        requires
            self.wf(),
        ensures
            match r {
                Some(v) => self@.contains_key((table@, key@)) && v@ == self@[(table@, key@)],
                None => !self@.contains_key((table@, key@)),
            },
    {
        match self.find(table, key) {
            Some(i) => Some(self.entries[i].value.dup()),
            None => None,
        }
    }

    /// True when the key is present in the table.
    pub fn contains(&self, table: &String, key: &String) -> (r: bool)
        requires
            self.wf(),
        ensures
            r == self@.contains_key((table@, key@)),
    {
        match self.find(table, key) {
            Some(_) => true,
            None => false,
        }
    }

    /// Writes one pair and returns the prior value for that key, if any.
    /// The table is created implicitly by the first write into it.
    pub fn set(&mut self, table: &String, key: &String, value: Value) -> (prior: Option<Value>)
        requires
            old(self).wf(),
        ensures
            final(self).wf(),
            final(self)@ == old(self)@.insert((table@, key@), value@),
            match prior {
                Some(v) => old(self)@.contains_key((table@, key@)) && v@ == old(self)@[(
                    table@,
                    key@,
                )],
                None => !old(self)@.contains_key((table@, key@)),
            },
    {
        match self.find(table, key) {
            Some(i) => {
                let ghost s0 = self.entries@;
                let old_entry = self.entries.remove(i);
                let new_entry = StoreEntry { table: old_entry.table, key: old_entry.key, value };
                self.entries.insert(i, new_entry);
                proof {
                    assert(self.entries@ =~= s0.update(i as int, self.entries@[i as int]));
                    lemma_map_of_update(s0, i as int, self.entries@[i as int]);
                    assert(unique_keys(self.entries@));
                }
                Some(old_entry.value)
            },
            None => {
                let ghost s0 = self.entries@;
                let e = StoreEntry { table: table.clone(), key: key.clone(), value };
                self.entries.push(e);
                proof {
                    lemma_map_of_push(s0, self.entries@.last());
                    assert forall|i: int, j: int| 0 <= i < j < self.entries@.len() implies
                        entry_key(#[trigger] self.entries@[i]) != entry_key(
                        #[trigger] self.entries@[j]) by {
                        if j == self.entries@.len() - 1 {
                            assert(entry_key(self.entries@[i]) != (table@, key@)) by {
                                if entry_key(self.entries@[i]) == (table@, key@) {
                                    lemma_map_of_found(s0, i);
                                }
                            }
                        }
                    }
                }
                None
            },
        }
    }

    /// Deletes one key and returns the prior value, if any.
    pub fn del(&mut self, table: &String, key: &String) -> (prior: Option<Value>)
        requires
            old(self).wf(),
        ensures
            final(self).wf(),
            final(self)@ == old(self)@.remove((table@, key@)),
            match prior {
                Some(v) => old(self)@.contains_key((table@, key@)) && v@ == old(self)@[(
                    table@,
                    key@,
                )],
                None => !old(self)@.contains_key((table@, key@)),
            },
    {
        match self.find(table, key) {
            Some(i) => {
                let ghost s0 = self.entries@;
                let old_entry = self.entries.remove(i);
                proof {
                    lemma_map_of_remove(s0, i as int);
                    assert(unique_keys(self.entries@));
                }
                Some(old_entry.value)
            },
            None => {
                proof {
                    assert(old(self)@ =~= old(self)@.remove((table@, key@)));
                }
                None
            },
        }
    }

    /// Scans one table: every returned pair is a binding of that table, every
    /// key of the table appears exactly once, and no key repeats.
    pub fn get_all(&self, table: &String) -> (r: Vec<Kvpair>)
        requires
            self.wf(),
        ensures
            forall|j: int|
                0 <= j < r@.len() ==> self@.contains_key((table@, #[trigger] r@[j]@.key))
                    && self@[(table@, r@[j]@.key)] == r@[j]@.value,
            forall|k: Seq<char>|
                self@.contains_key((table@, k)) ==> exists|j: int|
                    0 <= j < r@.len() && #[trigger] r@[j]@.key == k,
            forall|j1: int, j2: int| 0 <= j1 < j2 < r@.len() ==> r@[j1]@.key != r@[j2]@.key,
    {
        let n = self.entries.len();
        let mut out: Vec<Kvpair> = Vec::new();
        let mut i: usize = 0;
        while i < n
            invariant
                self.wf(),
                i <= n == self.entries@.len(),
                forall|j: int|
                    0 <= j < out@.len() ==> exists|e: int|
                        0 <= e < i && #[trigger] out@[j]@.key == self.entries@[e].key@
                            && self.entries@[e].table@ == table@ && self.entries@[e].value@
                            == out@[j]@.value,
                forall|e: int|
                    0 <= e < i && self.entries@[e].table@ == table@ ==> exists|j: int|
                        0 <= j < out@.len() && #[trigger] out@[j]@.key == self.entries@[e].key@,
                forall|j1: int, j2: int| 0 <= j1 < j2 < out@.len() ==> out@[j1]@.key != out@[j2]@.key,
            decreases n - i,
        {
            let ghost out0 = out@;
            if self.entries[i].table == *table {
                out.push(
                    Kvpair {
                        key: self.entries[i].key.clone(),
                        value: self.entries[i].value.dup(),
                    },
                );
                proof {
                    let s = self.entries@;
                    let newlen = out@.len() as int;
                    assert(out@[newlen - 1]@.key == s[i as int].key@);
                    assert forall|j: int| 0 <= j < out@.len() implies exists|e: int|
                        0 <= e < i + 1 && #[trigger] out@[j]@.key == s[e].key@ && s[e].table@
                            == table@ && s[e].value@ == out@[j]@.value by {
                        if j < newlen - 1 {
                            let e0 = choose|e: int|
                                0 <= e < i && #[trigger] out0[j]@.key == s[e].key@ && s[e].table@
                                    == table@ && s[e].value@ == out0[j]@.value;
                            assert(out@[j] == out0[j]);
                            assert(0 <= e0 < i + 1 && out@[j]@.key == s[e0].key@ && s[e0].table@
                                == table@ && s[e0].value@ == out@[j]@.value);
                        } else {
                            assert(0 <= i < i + 1 && out@[j]@.key == s[i as int].key@
                                && s[i as int].table@ == table@ && s[i as int].value@
                                == out@[j]@.value);
                        }
                    }
                    assert forall|e: int| 0 <= e < i + 1 && s[e].table@ == table@ implies exists|
                        j: int,
                    | 0 <= j < out@.len() && #[trigger] out@[j]@.key == s[e].key@ by {
                        if e == i {
                            assert(out@[newlen - 1]@.key == s[e].key@);
                        } else {
                            let j0 = choose|j: int|
                                0 <= j < out0.len() && #[trigger] out0[j]@.key == s[e].key@;
                            assert(out@[j0]@.key == s[e].key@);
                        }
                    }
                    assert forall|j1: int, j2: int| 0 <= j1 < j2 < out@.len() implies out@[j1]@.key
                        != out@[j2]@.key by {
                        if j2 == newlen - 1 {
                            if out@[j1]@.key == s[i as int].key@ {
                                let e0 = choose|e: int|
                                    0 <= e < i && #[trigger] out0[j1]@.key == s[e].key@
                                        && s[e].table@ == table@ && s[e].value@
                                        == out0[j1]@.value;
                                assert(entry_key(s[e0]) == entry_key(s[i as int]));
                                assert(false);
                            }
                        }
                    }
                }
            }
            i = i + 1;
        }
        proof {
            let s = self.entries@;
            assert forall|j: int| 0 <= j < out@.len() implies self@.contains_key(
                (table@, #[trigger] out@[j]@.key),
            ) && self@[(table@, out@[j]@.key)] == out@[j]@.value by {
                let e0 = choose|e: int|
                    0 <= e < n && #[trigger] out@[j]@.key == s[e].key@ && s[e].table@ == table@
                        && s[e].value@ == out@[j]@.value;
                lemma_map_of_found(s, e0);
            }
            assert forall|k: Seq<char>| self@.contains_key((table@, k)) implies exists|j: int|
                0 <= j < out@.len() && #[trigger] out@[j]@.key == k by {
                if forall|e: int|
                    0 <= e < s.len() ==> entry_key(#[trigger] s[e]) != (table@, k) {
                    lemma_map_of_absent(s, table@, k);
                } else {
                    let e = choose|e: int|
                        0 <= e < s.len() && entry_key(#[trigger] s[e]) == (table@, k);
                    assert(s[e].table@ == table@);
                    let j0 = choose|j: int|
                        0 <= j < out@.len() && #[trigger] out@[j]@.key == s[e].key@;
                    assert(out@[j0]@.key == k);
                }
            }
        }
        out
    }
}

} // verus!
