//! A map from texts to texts that keeps its keys sorted.
//!
//! It holds the file hashes of a revision and the retained files of an
//! upload: walking it visits the keys in lexicographic order, which is the
//! order that makes a revision id reproducible.

use vstd::prelude::*;
use crate::assoc::{
    get, has_key, key_index, lemma_rank, lemma_sorted_put_sorted, rank, sorted, sorted_put,
    without,
};
use crate::text::{chars_of, lex_less};

verus! {

/// The content of a list of text pairs.
pub open spec fn pairs(entries: Seq<(String, String)>) -> Seq<(Seq<char>, Seq<char>)> {
    Seq::new(entries.len(), |i: int| (entries[i].0@, entries[i].1@))
}

/// A sorted map from texts to texts.
#[derive(Debug)]
pub struct Table {
    entries: Vec<(String, String)>,
}

impl View for Table {
    type V = Seq<(Seq<char>, Seq<char>)>;

    closed spec fn view(&self) -> Seq<(Seq<char>, Seq<char>)> {
        pairs(self.entries@)
    }
}

impl Table {
    #[verifier::type_invariant]
    spec fn ascending(self) -> bool {
        sorted(pairs(self.entries@))
    }

    /// The empty table.
    pub fn new() -> (t: Table)
        ensures
            t@ == Seq::<(Seq<char>, Seq<char>)>::empty(),
    {
        let t = Table { entries: Vec::new() };
        assert(t@ =~= Seq::<(Seq<char>, Seq<char>)>::empty());
        t
    }

    /// The number of keys. The keys of a table ascend strictly.
    pub fn len(&self) -> (n: usize)
        ensures
            n == self@.len(),
            sorted(self@),
    {
        proof {
            use_type_invariant(self);
        }
        self.entries.len()
    }

    /// The key at position `i` of the sorted order.
    pub fn key(&self, i: usize) -> (k: &String)
        requires
            i < self@.len(),
        ensures
            k@ == self@[i as int].0,
    {
        &self.entries[i].0
    }

    /// The value at position `i` of the sorted order.
    pub fn value(&self, i: usize) -> (v: &String)
        requires
            i < self@.len(),
        ensures
            v@ == self@[i as int].1,
    {
        &self.entries[i].1
    }

    /// The position of `key`, or the number of keys when it is absent.
    pub fn position(&self, key: &String) -> (i: usize)
        ensures
            i == key_index(self@, key@, 0),
            i <= self@.len(),
    {
        let mut i: usize = 0;
        while i < self.entries.len() && self.entries[i].0 != *key
            invariant
                i <= self.entries.len(),
                key_index(self@, key@, 0) == key_index(self@, key@, i as int),
            decreases self.entries.len() - i,
        {
            i += 1;
        }
        i
    }

    /// The value of `key`, if the table holds it.
    pub fn get(&self, key: &String) -> (r: Option<&String>)
        ensures
            match r {
                Some(v) => get(self@, key@) == Some(v@),
                None => get(self@, key@) is None,
            },
    {
        let i = self.position(key);
        if i < self.entries.len() {
            Some(&self.entries[i].1)
        } else {
            None
        }
    }

    /// Whether the table holds `key`.
    pub fn contains_key(&self, key: &String) -> (r: bool)
        ensures
            r == has_key(self@, key@),
    {
        self.position(key) < self.entries.len()
    }

    /// The table with `value` as the value of `key`, the keys still sorted.
    pub fn insert(self, key: String, value: String) -> (t: Table)
        ensures
            t@ == sorted_put(self@, key@, value@),
            sorted(t@),
    {
        proof {
            use_type_invariant(&self);
            lemma_rank(self@, key@, 0);
            lemma_sorted_put_sorted(self@, key@, value@);
        }
        let ghost before = self@;
        let mut entries = self.entries;
        let wanted = chars_of(key.as_str());
        let mut i: usize = 0;
        while i < entries.len() && lex_less(
            chars_of(entries[i].0.as_str()).as_slice(),
            wanted.as_slice(),
        )
            invariant
                i <= entries.len(),
                wanted@ == key@,
                pairs(entries@) == before,
                rank(before, key@, 0) == rank(before, key@, i as int),
            decreases entries.len() - i,
        {
            i += 1;
        }
        if i < entries.len() && entries[i].0 == key {
            entries[i] = (key, value);
            assert(pairs(entries@) =~= before.update(i as int, (key@, value@)));
        } else {
            entries.insert(i, (key, value));
            assert(pairs(entries@) =~= before.insert(i as int, (key@, value@)));
        }
        Table { entries }
    }

    /// The table without `key` and its value.
    pub fn remove(self, key: &String) -> (t: Table)
        ensures
            t@ == without(self@, key@),
            sorted(t@),
    {
        proof {
            use_type_invariant(&self);
        }
        let i = self.position(key);
        let ghost before = self@;
        let mut entries = self.entries;
        if i < entries.len() {
            entries.remove(i);
            let ghost after = pairs(entries@);
            assert(after =~= before.remove(i as int));
            assert forall|a: int, b: int| 0 <= a < b < after.len() implies crate::text::lex_lt(
                (#[trigger] after[a]).0,
                (#[trigger] after[b]).0,
            ) by {
                let a0 = if a < i { a } else { a + 1 };
                let b0 = if b < i { b } else { b + 1 };
                assert(after[a] == before[a0]);
                assert(after[b] == before[b0]);
            }
        }
        Table { entries }
    }

    /// A table with the same keys and values.
    pub fn copy(&self) -> (t: Table)
        ensures
            t@ == self@,
    {
        proof {
            use_type_invariant(self);
        }
        let mut entries: Vec<(String, String)> = Vec::new();
        let mut i: usize = 0;
        while i < self.entries.len()
            invariant
                i <= self.entries.len(),
                pairs(entries@) == self@.take(i as int),
            decreases self.entries.len() - i,
        {
            let k = self.entries[i].0.clone();
            let v = self.entries[i].1.clone();
            let ghost before = pairs(entries@);
            entries.push((k, v));
            assert(pairs(entries@) =~= before.push(self@[i as int]));
            i += 1;
            assert(pairs(entries@) =~= self@.take(i as int));
        }
        assert(self@.take(self.entries.len() as int) =~= self@);
        Table { entries }
    }
}

} // verus!
