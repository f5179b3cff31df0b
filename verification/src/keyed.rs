//! A table from texts to values.

use crate::text;
use vstd::prelude::*;

verus! {

/// A value and its key.
#[derive(Debug)]
pub struct Entry<T> {
    pub key: String,
    pub value: T,
}

/// Whether no two of `s` have the same key.
pub open spec fn distinct_keys<T>(s: Seq<Entry<T>>) -> bool {
    forall|i: int, j: int|
        #![trigger s[i], s[j]]
        0 <= i < j < s.len() ==> s[i].key@ != s[j].key@
}

/// Whether the entry at `i` of `s` has the key `key`.
pub open spec fn key_at<T>(s: Seq<Entry<T>>, i: int, key: Seq<char>) -> bool {
    0 <= i < s.len() && s[i].key@ == key
}

/// The values of `s` by key.
pub open spec fn by_key<T>(s: Seq<Entry<T>>) -> Map<Seq<char>, T> {
    Map::new(
        |key: Seq<char>| exists|i: int| #[trigger] key_at(s, i, key),
        |key: Seq<char>| s[choose|i: int| #[trigger] key_at(s, i, key)].value,
    )
}

/// A table with at most one value for each key.
#[derive(Debug)]
pub struct Keyed<T> {
    pub entries: Vec<Entry<T>>,
}

impl<T> View for Keyed<T> {
    type V = Map<Seq<char>, T>;

    open spec fn view(&self) -> Map<Seq<char>, T> {
        by_key(self.entries@)
    }
}

/// An entry is found under its key.
pub proof fn lemma_by_key<T>(s: Seq<Entry<T>>, i: int)
    requires
        distinct_keys(s),
        0 <= i < s.len(),
    ensures
        by_key(s).dom().contains(s[i].key@),
        by_key(s)[s[i].key@] == s[i].value,
{
    let key = s[i].key@;
    assert(key_at(s, i, key));
    let j = choose|j: int| #[trigger] key_at(s, j, key);
    if i < j {
        assert(s[i].key@ != s[j].key@);
    } else if j < i {
        assert(s[j].key@ != s[i].key@);
    }
}

proof fn lemma_pushed<T>(s: Seq<Entry<T>>, e: Entry<T>)
    requires
        distinct_keys(s),
        distinct_keys(s.push(e)),
    ensures
        by_key(s.push(e)) == by_key(s).insert(e.key@, e.value),
{
    let t = s.push(e);
    let m = by_key(s).insert(e.key@, e.value);
    assert forall|key: Seq<char>|
        #![trigger by_key(t).dom().contains(key)]
        #![trigger by_key(t)[key]]
        #![trigger m.dom().contains(key)]
        by_key(t).dom().contains(key) == m.dom().contains(key) && (m.dom().contains(key)
            ==> by_key(t)[key] == m[key]) by {
        lemma_by_key(t, s.len() as int);
        if by_key(t).dom().contains(key) && key != e.key@ {
            let j = choose|j: int| #[trigger] key_at(t, j, key);
            lemma_by_key(t, j);
            lemma_by_key(s, j);
        }
        if m.dom().contains(key) && key != e.key@ {
            let j = choose|j: int| #[trigger] key_at(s, j, key);
            assert(key_at(t, j, key));
            lemma_by_key(t, j);
            lemma_by_key(s, j);
        }
    }
    assert(by_key(t) =~= m);
}

proof fn lemma_removed<T>(s: Seq<Entry<T>>, at: int)
    requires
        distinct_keys(s),
        0 <= at < s.len(),
    ensures
        distinct_keys(s.remove(at)),
        by_key(s.remove(at)) == by_key(s).remove(s[at].key@),
{
    let t = s.remove(at);
    let gone = s[at].key@;
    let m = by_key(s).remove(gone);
    assert forall|a: int, b: int|
        #![trigger t[a], t[b]]
        0 <= a < b < t.len() implies t[a].key@ != t[b].key@ by {
        let x = if a < at { a } else { a + 1 };
        let y = if b < at { b } else { b + 1 };
        assert(s[x].key@ != s[y].key@);
    }
    assert forall|key: Seq<char>|
        #![trigger by_key(t).dom().contains(key)]
        #![trigger by_key(t)[key]]
        #![trigger m.dom().contains(key)]
        by_key(t).dom().contains(key) == m.dom().contains(key) && (m.dom().contains(key)
            ==> by_key(t)[key] == m[key]) by {
        if by_key(t).dom().contains(key) {
            let j = choose|j: int| #[trigger] key_at(t, j, key);
            let x = if j < at { j } else { j + 1 };
            lemma_by_key(t, j);
            lemma_by_key(s, x);
            if x < at {
                assert(s[x].key@ != s[at].key@);
            } else {
                assert(s[at].key@ != s[x].key@);
            }
        }
        if m.dom().contains(key) {
            let j = choose|j: int| #[trigger] key_at(s, j, key);
            lemma_by_key(s, j);
            assert(j != at);
            let x = if j < at { j } else { j - 1 };
            assert(key_at(t, x, key));
            lemma_by_key(t, x);
        }
    }
    assert(by_key(t) =~= m);
}

impl<T: View> Keyed<T> {
    /// What the values say, by key.
    pub open spec fn views(&self) -> Map<Seq<char>, T::V> {
        views_of(self@)
    }
}

/// What the values of `m` say.
pub open spec fn views_of<T: View>(m: Map<Seq<char>, T>) -> Map<Seq<char>, T::V> {
    m.map_values(|v: T| v@)
}

/// Inserting and removing go through to what the values say.
pub proof fn lemma_views<T: View>(m: Map<Seq<char>, T>, key: Seq<char>, value: T)
    ensures
        views_of(m.insert(key, value)) == views_of(m).insert(key, value@),
        views_of(m.remove(key)) == views_of(m).remove(key),
{
    assert(views_of(m.insert(key, value)) =~= views_of(m).insert(key, value@));
    assert(views_of(m.remove(key)) =~= views_of(m).remove(key));
}

impl<T> Keyed<T> {
    /// No key occurs twice.
    pub open spec fn wf(&self) -> bool {
        distinct_keys(self.entries@)
    }

    /// An empty table.
    pub fn new() -> (table: Self)
        ensures
            table.wf(),
            table@ == Map::<Seq<char>, T>::empty(),
    {
        let table = Keyed { entries: Vec::new() };
        assert forall|key: Seq<char>| !table@.dom().contains(key) by {}
        assert(table@ =~= Map::<Seq<char>, T>::empty());
        table
    }

    fn position(&self, key: &str) -> (at: Option<usize>)
        requires
            self.wf(),
        ensures
            at matches Some(i) ==> key_at(self.entries@, i as int, key@),
            at is None ==> !self@.dom().contains(key@),
    {
        let mut i: usize = 0;
        while i < self.entries.len()
            invariant
                i <= self.entries@.len(),
                forall|j: int| 0 <= j < i ==> !#[trigger] key_at(self.entries@, j, key@),
            decreases self.entries@.len() - i,
        {
            if text::same_text(self.entries[i].key.as_str(), key) {
                return Some(i);
            }
            i += 1;
        }
        assert forall|j: int| !#[trigger] key_at(self.entries@, j, key@) by {}
        None
    }

    /// The value under `key`.
    pub fn get(&self, key: &str) -> (value: Option<&T>)
        requires
            self.wf(),
        ensures
            value is Some <==> self@.dom().contains(key@),
            value matches Some(v) ==> *v == self@[key@],
    {
        match self.position(key) {
            None => None,
            Some(i) => {
                proof {
                    lemma_by_key(self.entries@, i as int);
                }
                Some(&self.entries[i].value)
            },
        }
    }

    /// Takes the value under `key` out of the table.
    pub fn take(&mut self, key: &str) -> (value: Option<T>)
        requires
            old(self).wf(),
        ensures
            final(self).wf(),
            final(self)@ == old(self)@.remove(key@),
            value is Some <==> old(self)@.dom().contains(key@),
            value matches Some(v) ==> v == old(self)@[key@],
    {
        match self.position(key) {
            None => {
                assert(self@ =~= self@.remove(key@));
                None
            },
            Some(i) => {
                proof {
                    lemma_by_key(self.entries@, i as int);
                    lemma_removed(self.entries@, i as int);
                }
                let entry = self.entries.remove(i);
                Some(entry.value)
            },
        }
    }

    /// Puts `value` under `key`, in place of what was there.
    pub fn insert(&mut self, key: &str, value: T)
        requires
            old(self).wf(),
        ensures
            final(self).wf(),
            final(self)@ == old(self)@.insert(key@, value),
    {
        let ghost start = self@;
        let _ = self.take(key);
        let entry = Entry { key: key.to_owned(), value };
        let ghost before = self.entries@;
        let ghost new = entry;
        self.entries.push(entry);
        proof {
            assert(self.entries@ == before.push(new));
            assert forall|i: int| 0 <= i < before.len() implies (#[trigger] before[i]).key@
                != key@ by {
                lemma_by_key(before, i);
            }
            assert(distinct_keys(self.entries@));
            lemma_pushed(before, new);
            assert(start.remove(key@).insert(key@, value) =~= start.insert(key@, value));
        }
    }
}

} // verus!
