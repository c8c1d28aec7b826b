//! String-keyed collections that keep the order in which their keys
//! arrived, for the tags and the metrics of a span.

use vstd::prelude::*;

verus! {

/// Whether some entry of `s` carries the key `key`.
pub open spec fn tag_has<W>(s: Seq<(Seq<char>, W)>, key: Seq<char>) -> bool {
    exists|i: int| 0 <= i < s.len() && (#[trigger] s[i]).0 == key
}

/// The position of an entry of `s` that carries `key`, where there is one.
pub open spec fn tag_index<W>(s: Seq<(Seq<char>, W)>, key: Seq<char>) -> int {
    choose|i: int| 0 <= i < s.len() && (#[trigger] s[i]).0 == key
}

/// The value stored under `key`, if any.
pub open spec fn tag_get<W>(s: Seq<(Seq<char>, W)>, key: Seq<char>) -> Option<W> {
    if tag_has(s, key) {
        Some(s[tag_index(s, key)].1)
    } else {
        None
    }
}

/// `s` with `value` stored under `key`: in place where the key is present,
/// at the end where it is new.
pub open spec fn tag_set<W>(s: Seq<(Seq<char>, W)>, key: Seq<char>, value: W) -> Seq<
    (Seq<char>, W),
> {
    if tag_has(s, key) {
        s.update(tag_index(s, key), (key, value))
    } else {
        s.push((key, value))
    }
}

/// `s` without the entry for `key`; the other entries keep their order.
pub open spec fn tag_del<W>(s: Seq<(Seq<char>, W)>, key: Seq<char>) -> Seq<(Seq<char>, W)> {
    if tag_has(s, key) {
        s.remove(tag_index(s, key))
    } else {
        s
    }
}

/// No key occurs twice.
pub open spec fn tags_distinct<W>(s: Seq<(Seq<char>, W)>) -> bool {
    forall|i: int, j: int| 0 <= i < j < s.len() ==> (#[trigger] s[i]).0 != (#[trigger] s[j]).0
}

/// The mapping that the entries stand for.
pub open spec fn tags_map<W>(s: Seq<(Seq<char>, W)>) -> Map<Seq<char>, W> {
    Map::new(|k: Seq<char>| tag_has(s, k), |k: Seq<char>| s[tag_index(s, k)].1)
}

/// With distinct keys, the entry at `i` is the one that a lookup of its key finds.
pub proof fn lemma_tag_index_unique<W>(s: Seq<(Seq<char>, W)>, i: int)
    requires
        tags_distinct(s),
        0 <= i < s.len(),
    ensures
        tag_has(s, s[i].0),
        tag_index(s, s[i].0) == i,
{
    let j = tag_index(s, s[i].0);
    assert(0 <= j < s.len() && s[j].0 == s[i].0);
    if j < i {
        assert(s[j].0 != s[i].0);
    } else if i < j {
        assert(s[i].0 != s[j].0);
    }
}

/// Storing a value keeps the keys distinct, and as a mapping it is an insert.
pub proof fn lemma_tag_set<W>(s: Seq<(Seq<char>, W)>, key: Seq<char>, value: W)
    requires
        tags_distinct(s),
    ensures
        tags_distinct(tag_set(s, key, value)),
        tags_map(tag_set(s, key, value)) == tags_map(s).insert(key, value),
        tag_get(tag_set(s, key, value), key) == Some(value),
        tag_set(s, key, value).len() == s.len() + if tag_has(s, key) { 0int } else { 1int },
{
    let t = tag_set(s, key, value);
    let at = if tag_has(s, key) { tag_index(s, key) } else { s.len() as int };
    assert(0 <= at < t.len() && t[at] == (key, value));
    assert(t.len() == s.len() + if tag_has(s, key) { 0int } else { 1int });
    assert forall|i: int| 0 <= i < t.len() && i != at implies (#[trigger] t[i]) == s[i] && s[i].0
        != key by {
        if tag_has(s, key) {
            lemma_tag_index_unique(s, i);
        }
    }
    assert(tags_distinct(t)) by {
        assert forall|i: int, j: int| 0 <= i < j < t.len() implies (#[trigger] t[i]).0 != (
        #[trigger] t[j]).0 by {
            if i != at && j != at {
                assert(s[i].0 != s[j].0);
            }
        }
    }
    lemma_tag_index_unique(t, at);
    assert forall|k: Seq<char>| tag_has(t, k) <==> (k == key || tag_has(s, k)) by {
        if tag_has(t, k) {
            let i = tag_index(t, k);
            if i != at {
                assert(s[i].0 == k);
            }
        }
        if k != key && tag_has(s, k) {
            let i = tag_index(s, k);
            assert(i != at);
            assert(t[i].0 == k);
        }
    }
    assert forall|k: Seq<char>| k != key && tag_has(s, k) implies t[tag_index(t, k)].1
        == s[tag_index(s, k)].1 by {
        let i = tag_index(s, k);
        assert(t[i] == s[i]);
        lemma_tag_index_unique(t, i);
    }
    assert(tags_map(t) =~= tags_map(s).insert(key, value));
}

/// Deleting a key keeps the keys distinct, and as a mapping it is a removal.
pub proof fn lemma_tag_del<W>(s: Seq<(Seq<char>, W)>, key: Seq<char>)
    requires
        tags_distinct(s),
    ensures
        tags_distinct(tag_del(s, key)),
        tags_map(tag_del(s, key)) == tags_map(s).remove(key),
        tag_get(tag_del(s, key), key) == None::<W>,
        !tag_has(s, key) ==> tag_del(s, key) == s,
{
    let t = tag_del(s, key);
    if tag_has(s, key) {
        let at = tag_index(s, key);
        assert forall|i: int| 0 <= i < t.len() implies (#[trigger] t[i]) == s[
            if i < at { i } else { i + 1 }
        ] by {}
        assert(tags_distinct(t)) by {
            assert forall|i: int, j: int| 0 <= i < j < t.len() implies (#[trigger] t[i]).0 != (
            #[trigger] t[j]).0 by {
                let si = if i < at { i } else { i + 1 };
                let sj = if j < at { j } else { j + 1 };
                assert(s[si].0 != s[sj].0);
            }
        }
        assert forall|k: Seq<char>| tag_has(t, k) <==> (k != key && tag_has(s, k)) by {
            if tag_has(t, k) {
                let i = tag_index(t, k);
                let si = if i < at { i } else { i + 1 };
                assert(s[si].0 == k);
                lemma_tag_index_unique(s, si);
            }
            if k != key && tag_has(s, k) {
                let i = tag_index(s, k);
                let ti = if i < at { i } else { i - 1 };
                assert(t[ti] == s[i]);
            }
        }
        assert forall|k: Seq<char>| k != key && tag_has(s, k) implies t[tag_index(t, k)].1
            == s[tag_index(s, k)].1 by {
            let i = tag_index(s, k);
            let ti = if i < at { i } else { i - 1 };
            assert(t[ti] == s[i]);
            lemma_tag_index_unique(t, ti);
        }
        assert(tags_map(t) =~= tags_map(s).remove(key));
    } else {
        assert(tags_map(t) =~= tags_map(s).remove(key));
    }
}

/// A small mapping from strings to values that remembers the order in which
/// its keys first arrived.
#[derive(Debug)]
pub struct Tags<V: View> {
    entries: Vec<(String, V)>,
}

impl<V: View> View for Tags<V> {
    type V = Seq<(Seq<char>, V::V)>;

    closed spec fn view(&self) -> Seq<(Seq<char>, V::V)> {
        self.entries@.map_values(|e: (String, V)| (e.0@, e.1@))
    }
}

impl<V: View> Tags<V> {
    #[verifier::type_invariant]
    spec fn inv(self) -> bool {
        tags_distinct(self@)
    }

    pub fn new() -> (t: Self)
        ensures
            t@ == Seq::<(Seq<char>, V::V)>::empty(),
    {
        let t = Tags { entries: Vec::new() };
        assert(t@ =~= Seq::<(Seq<char>, V::V)>::empty());
        t
    }

    pub fn len(&self) -> (n: usize)
        ensures
            n == self@.len(),
            tags_distinct(self@),
    {
        proof {
            use_type_invariant(self);
        }
        self.entries.len()
    }

    pub fn is_empty(&self) -> (b: bool)
        ensures
            b == (self@.len() == 0),
    {
        self.entries.len() == 0
    }

    /// The key of the entry at position `i`.
    pub fn key_at(&self, i: usize) -> (k: &String)
        requires
            i < self@.len(),
        ensures
            k@ == self@[i as int].0,
    {
        &self.entries[i].0
    }

    /// The value of the entry at position `i`.
    pub fn value_at(&self, i: usize) -> (v: &V)
        requires
            i < self@.len(),
        ensures
            v@ == self@[i as int].1,
    {
        &self.entries[i].1
    }

    fn find(&self, key: &String) -> (r: Option<usize>)
        ensures
            match r {
                Some(i) => i < self@.len() && tag_has(self@, key@) && tag_index(self@, key@) == i,
                None => !tag_has(self@, key@),
            },
    {
        proof {
            use_type_invariant(self);
        }
        let n = self.entries.len();
        let mut i: usize = 0;
        while i < n
            invariant
                n == self.entries.len(),
                i <= n,
                tags_distinct(self@),
                forall|j: int| 0 <= j < i ==> (#[trigger] self@[j]).0 != key@,
            decreases n - i,
        {
            if self.entries[i].0 == *key {
                proof {
                    assert(self@[i as int].0 == key@);
                    lemma_tag_index_unique(self@, i as int);
                }
                return Some(i);
            }
            i += 1;
        }
        None
    }

    /// The value stored under `key`, if there is one.
    pub fn get(&self, key: &String) -> (r: Option<&V>)
        ensures
            match r {
                Some(v) => tag_get(self@, key@) == Some(v@),
                None => tag_get(self@, key@) is None,
            },
    {
        match self.find(key) {
            Some(i) => Some(&self.entries[i].1),
            None => None,
        }
    }

    /// Stores `value` under `key`, replacing what was stored there.
    pub fn insert(&mut self, key: String, value: V)
        ensures
            final(self)@ == tag_set(old(self)@, key@, value@),
            tags_map(final(self)@) == tags_map(old(self)@).insert(key@, value@),
    {
        proof {
            use_type_invariant(&*self);
            lemma_tag_set(self@, key@, value@);
        }
        let found = self.find(&key);
        let mut entries: Vec<(String, V)> = Vec::new();
        std::mem::swap(&mut entries, &mut self.entries);
        match found {
            Some(i) => {
                entries.set(i, (key, value));
            },
            None => {
                entries.push((key, value));
            },
        }
        assert(entries@.map_values(|e: (String, V)| (e.0@, e.1@)) =~= tag_set(
            old(self)@,
            key@,
            value@,
        ));
        self.entries = entries;
    }

    /// Drops the entry for `key`; without one, nothing changes.
    pub fn remove(&mut self, key: &String)
        ensures
            final(self)@ == tag_del(old(self)@, key@),
            tags_map(final(self)@) == tags_map(old(self)@).remove(key@),
    {
        proof {
            use_type_invariant(&*self);
            lemma_tag_del(self@, key@);
        }
        let found = self.find(key);
        if let Some(i) = found {
            let mut entries: Vec<(String, V)> = Vec::new();
            std::mem::swap(&mut entries, &mut self.entries);
            entries.remove(i);
            assert(entries@.map_values(|e: (String, V)| (e.0@, e.1@)) =~= tag_del(
                old(self)@,
                key@,
            ));
            self.entries = entries;
        }
    }
}

} // verus!
