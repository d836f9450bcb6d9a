//! A map keyed by text, small enough to be searched linearly.
//!
//! The view of a map is the sequence of its entries in the order in which their keys were
//! first inserted.
use vstd::prelude::*;

use crate::text;

verus! {

/// The position of the first entry under `key`, or the number of entries.
pub open spec fn key_index<T>(s: Seq<(Seq<char>, T)>, key: Seq<char>) -> nat
    decreases s.len(),
{
    if s.len() == 0 || s[0].0 == key {
        0
    } else {
        1 + key_index(s.drop_first(), key)
    }
}

/// Whether there is an entry under `key`.
pub open spec fn has_key<T>(s: Seq<(Seq<char>, T)>, key: Seq<char>) -> bool {
    key_index(s, key) < s.len()
}

/// The value under `key`.
pub open spec fn lookup<T>(s: Seq<(Seq<char>, T)>, key: Seq<char>) -> Option<T> {
    if has_key(s, key) {
        Some(s[key_index(s, key) as int].1)
    } else {
        None
    }
}

/// The entries without the one under `key`.
pub open spec fn without<T>(s: Seq<(Seq<char>, T)>, key: Seq<char>) -> Seq<(Seq<char>, T)> {
    if has_key(s, key) {
        s.remove(key_index(s, key) as int)
    } else {
        s
    }
}

/// The entries with `value` under `key`.
pub open spec fn with<T>(s: Seq<(Seq<char>, T)>, key: Seq<char>, value: T) -> Seq<(Seq<char>, T)> {
    if has_key(s, key) {
        s.update(key_index(s, key) as int, (key, value))
    } else {
        s.push((key, value))
    }
}

/// No key occurs twice.
pub open spec fn distinct_keys<T>(s: Seq<(Seq<char>, T)>) -> bool {
    forall|i: int, j: int| 0 <= i < j < s.len() ==> (#[trigger] s[i]).0 != (#[trigger] s[j]).0
}

/// The values of all entries, in order.
pub open spec fn values<T>(s: Seq<(Seq<char>, T)>) -> Seq<T> {
    Seq::new(s.len(), |i: int| s[i].1)
}

/// Text entries with both sides taken by their view.
pub open spec fn text_entries(s: Seq<(Seq<char>, String)>) -> Seq<(Seq<char>, Seq<char>)> {
    Seq::new(s.len(), |i: int| (s[i].0, s[i].1@))
}

/// The position of a key is that of the first entry under it.
pub proof fn lemma_key_index<T>(s: Seq<(Seq<char>, T)>, key: Seq<char>)
    ensures
        key_index(s, key) <= s.len(),
        has_key(s, key) ==> s[key_index(s, key) as int].0 == key,
        forall|i: int| 0 <= i < key_index(s, key) ==> (#[trigger] s[i]).0 != key,
    decreases s.len(),
{
    if s.len() > 0 && s[0].0 != key {
        lemma_key_index(s.drop_first(), key);
        assert forall|i: int| 0 <= i < key_index(s, key) implies (#[trigger] s[i]).0 != key by {
            if i > 0 {
                assert(s.drop_first()[i - 1] == s[i]);
            }
        }
    }
}

/// An entry under `key` is found.
pub proof fn lemma_has_key<T>(s: Seq<(Seq<char>, T)>, i: int)
    requires
        0 <= i < s.len(),
    ensures
        has_key(s, s[i].0),
        distinct_keys(s) ==> key_index(s, s[i].0) == i,
{
    lemma_key_index(s, s[i].0);
}

/// Taking an entry out leaves the other keys as they are, and none under its key.
pub proof fn lemma_without<T>(s: Seq<(Seq<char>, T)>, key: Seq<char>)
    requires
        distinct_keys(s),
    ensures
        distinct_keys(without(s, key)),
        !has_key(without(s, key), key),
        forall|k: Seq<char>|
            k != key ==> #[trigger] lookup(without(s, key), k) == lookup(s, k),
{
    lemma_key_index(s, key);
    let t = without(s, key);
    let n = key_index(s, key) as int;
    lemma_key_index(t, key);
    if has_key(t, key) {
        let m = key_index(t, key) as int;
        if has_key(s, key) {
            let src = if m < n { m } else { m + 1 };
            assert(t[m] == s[src]);
            assert(s[src].0 == s[n].0);
        }
    }
    assert forall|k: Seq<char>| k != key implies #[trigger] lookup(t, k) == lookup(s, k) by {
        lemma_key_index(s, k);
        lemma_key_index(t, k);
        if has_key(s, key) {
            if has_key(s, k) {
                let i = key_index(s, k) as int;
                let j = if i < n { i } else { i - 1 };
                assert(t[j] == s[i]);
                lemma_has_key(t, j);
            }
            if has_key(t, k) {
                let j = key_index(t, k) as int;
                let i = if j < n { j } else { j + 1 };
                assert(t[j] == s[i]);
                lemma_has_key(s, i);
            }
        }
    }
}

/// Putting an entry in keeps the keys distinct and the other entries as they are.
pub proof fn lemma_with<T>(s: Seq<(Seq<char>, T)>, key: Seq<char>, value: T)
    requires
        distinct_keys(s),
    ensures
        distinct_keys(with(s, key, value)),
        lookup(with(s, key, value), key) == Some(value),
        forall|k: Seq<char>|
            k != key ==> #[trigger] lookup(with(s, key, value), k) == lookup(s, k),
{
    lemma_key_index(s, key);
    let t = with(s, key, value);
    let n = key_index(s, key) as int;
    assert(t[n] == (key, value));
    assert forall|i: int, j: int| 0 <= i < j < t.len() implies (#[trigger] t[i]).0 != (
    #[trigger] t[j]).0 by {
        if i < s.len() {
            assert(t[i].0 == s[i].0);
        }
        if j < s.len() {
            assert(t[j].0 == s[j].0);
        }
    }
    lemma_has_key(t, n);
    assert forall|k: Seq<char>| k != key implies #[trigger] lookup(t, k) == lookup(s, k) by {
        lemma_key_index(s, k);
        lemma_key_index(t, k);
        if has_key(s, k) {
            let i = key_index(s, k) as int;
            assert(t[i] == s[i]);
            lemma_has_key(t, i);
        }
        if has_key(t, k) {
            let i = key_index(t, k) as int;
            assert(t[i] == s[i]);
            lemma_has_key(s, i);
        }
    }
}

/// Taking text values by their views changes nothing of where the keys are.
pub proof fn lemma_text_entries(s: Seq<(Seq<char>, String)>, key: Seq<char>)
    ensures
        key_index(text_entries(s), key) == key_index(s, key),
        has_key(text_entries(s), key) == has_key(s, key),
    decreases s.len(),
{
    if s.len() > 0 && s[0].0 != key {
        lemma_text_entries(s.drop_first(), key);
        assert(text_entries(s).drop_first() =~= text_entries(s.drop_first()));
    }
}

/// Putting a text in commutes with taking the values by their views.
pub proof fn lemma_text_entries_with(s: Seq<(Seq<char>, String)>, key: Seq<char>, value: String)
    ensures
        text_entries(with(s, key, value)) == with(text_entries(s), key, value@),
{
    lemma_text_entries(s, key);
    lemma_key_index(s, key);
    assert(text_entries(with(s, key, value)) =~= with(text_entries(s), key, value@));
}

/// A map from text to `T`, in insertion order.
#[derive(Debug)]
pub struct StrMap<T> {
    entries: Vec<(String, T)>,
}

impl<T> View for StrMap<T> {
    type V = Seq<(Seq<char>, T)>;

    closed spec fn view(&self) -> Seq<(Seq<char>, T)> {
        Seq::new(self.entries@.len(), |i: int| (self.entries@[i].0@, self.entries@[i].1))
    }
}

impl<T> StrMap<T> {
    /// No key occurs twice.
    pub open spec fn wf(&self) -> bool {
        distinct_keys(self@)
    }

    /// A map without entries.
    pub fn new() -> (r: Self)
        ensures
            r@ == Seq::<(Seq<char>, T)>::empty(),
            r.wf(),
    {
        let r = StrMap { entries: Vec::new() };
        assert(r@ =~= Seq::<(Seq<char>, T)>::empty());
        r
    }

    /// The number of entries.
    pub fn len(&self) -> (r: usize)
        ensures
            r == self@.len(),
    {
        self.entries.len()
    }

    /// Whether there is no entry.
    pub fn is_empty(&self) -> (r: bool)
        ensures
            r == (self@.len() == 0),
    {
        self.entries.len() == 0
    }

    fn find(&self, key: &str) -> (r: usize)
        ensures
            r == key_index(self@, key@),
            r <= self@.len(),
    {
        let mut i: usize = 0;
        assert(self@.skip(0) =~= self@);
        while i < self.entries.len() && !text::same_text(self.entries[i].0.as_str(), key)
            invariant
                i <= self@.len(),
                self@.len() == self.entries@.len(),
                key_index(self@, key@) == i + key_index(self@.skip(i as int), key@),
            decreases self@.len() - i,
        {
            assert(self@.skip(i as int)[0] == self@[i as int]);
            assert(self@.skip(i as int).drop_first() =~= self@.skip(i + 1));
            i = i + 1;
        }
        proof {
            if i < self@.len() {
                assert(self@.skip(i as int)[0] == self@[i as int]);
            }
        }
        i
    }

    /// Whether there is an entry under `key`.
    pub fn contains_key(&self, key: &str) -> (r: bool)
        ensures
            r == has_key(self@, key@),
    {
        self.find(key) < self.entries.len()
    }

    /// The value under `key`.
    pub fn get(&self, key: &str) -> (r: Option<&T>)
        ensures
            match r {
                Some(v) => lookup(self@, key@) == Some(*v),
                None => lookup(self@, key@) is None,
            },
    {
        let i = self.find(key);
        if i < self.entries.len() {
            Some(&self.entries[i].1)
        } else {
            None
        }
    }

    /// Puts `value` under `key`; a value already there is replaced.
    pub fn insert(&mut self, key: String, value: T)
        ensures
            final(self)@ == with(old(self)@, key@, value),
            old(self).wf() ==> final(self).wf(),
    {
        let i = self.find(key.as_str());
        let ghost before = self@;
        let ghost k = key@;
        if i < self.entries.len() {
            self.entries[i] = (key, value);
        } else {
            self.entries.push((key, value));
        }
        proof {
            assert(self@ =~= with(before, k, value));
            if distinct_keys(before) {
                lemma_with(before, k, value);
            }
        }
    }

    /// Takes the entry under `key` out.
    pub fn remove(&mut self, key: &str) -> (r: Option<T>)
        ensures
            r == lookup(old(self)@, key@),
            final(self)@ == without(old(self)@, key@),
            old(self).wf() ==> final(self).wf(),
    {
        let i = self.find(key);
        let ghost before = self@;
        if i < self.entries.len() {
            let entry = self.entries.remove(i);
            proof {
                assert(self@ =~= before.remove(i as int));
                if distinct_keys(before) {
                    lemma_without(before, key@);
                }
            }
            Some(entry.1)
        } else {
            None
        }
    }

    /// The key and the value at a position.
    pub fn entry_at(&self, i: usize) -> (r: (&String, &T))
        requires
            i < self@.len(),
        ensures
            (r.0@, *r.1) == self@[i as int],
    {
        let e = &self.entries[i];
        (&e.0, &e.1)
    }

    /// All values, in order.
    pub fn into_values(self) -> (r: Vec<T>)
        ensures
            r@ == values(self@),
    {
        let ghost all = self@;
        let entries = self.entries;
        let mut out: Vec<T> = Vec::new();
        for e in it: entries
            invariant
                all.len() == it.seq().len(),
                forall|i: int| 0 <= i < all.len() ==> all[i].1 == (#[trigger] it.seq()[i]).1,
                out@.len() == it.index(),
                forall|i: int| 0 <= i < it.index() ==> out@[i] == (#[trigger] all[i]).1,
        {
            out.push(e.1);
        }
        assert(out@ =~= values(all));
        out
    }
}

} // verus!
