//! A name-keyed table with deterministic (insertion) order.
//!
//! The library's entity tables need by-name lookup, in-place update and a
//! reproducible iteration order, so the table is a vector of key/value
//! pairs with unique keys; its model is the sequence of key/value models.

use vstd::prelude::*;

verus! {

/// Whether `s` holds an entry under key `k`.
pub open spec fn map_has_key<T>(s: Seq<(Seq<char>, T)>, k: Seq<char>) -> bool {
    exists|i: int| 0 <= i < s.len() && (#[trigger] s[i]).0 == k
}

/// The index of the entry under key `k` (unique when keys are unique).
pub open spec fn map_key_index<T>(s: Seq<(Seq<char>, T)>, k: Seq<char>) -> int {
    choose|i: int| 0 <= i < s.len() && (#[trigger] s[i]).0 == k
}

/// The value stored under key `k`.
pub open spec fn map_lookup<T>(s: Seq<(Seq<char>, T)>, k: Seq<char>) -> T {
    s[map_key_index(s, k)].1
}

/// Whether no two entries share a key.
pub open spec fn unique_keys<T>(s: Seq<(Seq<char>, T)>) -> bool {
    forall|i: int, j: int| 0 <= i < j < s.len()
        ==> (#[trigger] s[i]).0 != (#[trigger] s[j]).0
}

/// `s` with the value under `k` replaced in place, or appended when the
/// key is new.
pub open spec fn map_put<T>(s: Seq<(Seq<char>, T)>, k: Seq<char>, v: T) -> Seq<
    (Seq<char>, T),
> {
    if map_has_key(s, k) {
        s.update(map_key_index(s, k), (k, v))
    } else {
        s.push((k, v))
    }
}

/// A table of values keyed by name, in insertion order, keys unique.
pub struct NameMap<V> {
    entries: Vec<(String, V)>,
}

impl<V: View> NameMap<V> {
    /// The model: the sequence of (key model, value model) entries.
    pub closed spec fn view(&self) -> Seq<(Seq<char>, V::V)> {
        Seq::new(self.entries@.len(), |i: int| (self.entries@[i].0@, self.entries@[i].1@))
    }

    /// The well-formedness of the table: no two entries share a key.
    pub open spec fn wf(&self) -> bool {
        unique_keys(self.view())
    }

    pub fn new() -> (r: Self)
        ensures
            r.view() =~= Seq::<(Seq<char>, V::V)>::empty(),
            r.wf(),
    {
        NameMap { entries: Vec::new() }
    }

    pub fn len(&self) -> (r: usize)
        ensures
            r == self.view().len(),
    {
        self.entries.len()
    }

    /// The index of the entry under the key, if the key is present.
    fn find_index(&self, k: &str) -> (r: Option<usize>)
        ensures
            match r {
                Option::Some(i) => i < self.view().len() && self.view()[i as int].0 == k@
                    && (self.wf() ==> i == map_key_index(self.view(), k@)),
                Option::None => !map_has_key(self.view(), k@),
            },
    {
        let mut i: usize = 0;
        while i < self.entries.len()
            invariant
                i <= self.view().len(),
                self.view().len() == self.entries@.len(),
                forall|j: int| 0 <= j < i ==> (#[trigger] self.view()[j]).0 != k@,
            decreases self.view().len() - i,
        {
            if crate::strutil::str_eq(self.entries[i].0.as_str(), k) {
                proof {
                    assert(self.view()[i as int].0 == k@);
                    if self.wf() {
                        let w = map_key_index(self.view(), k@);
                        assert(0 <= w < self.view().len() && self.view()[w].0 == k@);
                        assert(w == i);
                    }
                }
                return Option::Some(i);
            }
            i = i + 1;
        }
        Option::None
    }

    /// Whether the table holds an entry under the key.
    pub fn contains_key(&self, k: &str) -> (r: bool)
        ensures
            r == map_has_key(self.view(), k@),
    {
        match self.find_index(k) {
            Option::Some(_) => true,
            Option::None => false,
        }
    }

    /// The value under the key, if any.
    pub fn get(&self, k: &str) -> (r: Option<&V>)
        requires
            self.wf(),
        ensures
            r is Some <==> map_has_key(self.view(), k@),
            r is Some ==> r.unwrap()@ == map_lookup(self.view(), k@),
    {
        match self.find_index(k) {
            Option::Some(i) => Option::Some(&self.entries[i].1),
            Option::None => Option::None,
        }
    }

    /// Stores the value under the key: replaces the value in place when
    /// the key is present, appends a new entry otherwise.
    pub fn insert(&mut self, k: String, v: V)
        requires
            old(self).wf(),
        ensures
            final(self).view() == map_put(old(self).view(), k@, v@),
            final(self).wf(),
    {
        let ghost oldview = self.view();
        match self.find_index(k.as_str()) {
            Option::Some(i) => {
                let entry = &mut self.entries[i];
                *entry = (k, v);
                proof {
                    assert(self.view() =~= map_put(oldview, k@, v@));
                }
            },
            Option::None => {
                self.entries.push((k, v));
                proof {
                    assert(self.view() =~= map_put(oldview, k@, v@));
                    assert forall|i: int, j: int| 0 <= i < j < self.view().len()
                        implies (#[trigger] self.view()[i]).0 != (#[trigger] self.view()[j]).0 by {
                        if j < self.view().len() - 1 {
                            assert(oldview[i].0 != oldview[j].0);
                        } else {
                            assert(!map_has_key(oldview, k@));
                            assert(oldview[i].0 != k@);
                        }
                    }
                }
            },
        }
    }

    /// Removes the entry under the key, if any; the other entries keep
    /// their order.
    pub fn remove(&mut self, k: &str)
        requires
            old(self).wf(),
        ensures
            final(self).wf(),
            map_has_key(old(self).view(), k@) ==> final(self).view() == old(self).view().remove(
                map_key_index(old(self).view(), k@),
            ),
            !map_has_key(old(self).view(), k@) ==> final(self).view() == old(self).view(),
    {
        let ghost oldview = self.view();
        match self.find_index(k) {
            Option::Some(i) => {
                self.entries.remove(i);
                proof {
                    assert(self.view() =~= oldview.remove(i as int));
                    assert forall|a: int, b: int| 0 <= a < b < self.view().len()
                        implies (#[trigger] self.view()[a]).0 != (#[trigger] self.view()[b]).0 by {
                        let oa = if a < i { a } else { a + 1 };
                        let ob = if b < i { b } else { b + 1 };
                        assert(oldview[oa].0 != oldview[ob].0);
                    }
                }
            },
            Option::None => {
                proof {
                    assert(self.view() =~= oldview);
                }
            },
        }
    }

    /// The key of the entry at the given position.
    pub fn key_at(&self, i: usize) -> (r: &String)
        requires
            i < self.view().len(),
        ensures
            r@ == self.view()[i as int].0,
    {
        &self.entries[i].0
    }

    /// The value of the entry at the given position.
    pub fn value_at(&self, i: usize) -> (r: &V)
        requires
            i < self.view().len(),
        ensures
            r@ == self.view()[i as int].1,
    {
        &self.entries[i].1
    }
}

// ------------------------------------------------------------------
// Facts relating lookup to membership.

/// After a put, the key is present and holds the new value; other keys
/// are untouched.
pub proof fn lemma_map_put<T>(s: Seq<(Seq<char>, T)>, k: Seq<char>, v: T)
    requires
        unique_keys(s),
    ensures
        map_has_key(map_put(s, k, v), k),
        unique_keys(map_put(s, k, v)),
        map_lookup(map_put(s, k, v), k) == v,
        forall|k2: Seq<char>| k2 != k ==> map_has_key(map_put(s, k, v), k2) == map_has_key(
            s,
            k2,
        ),
        forall|k2: Seq<char>| k2 != k && map_has_key(s, k2) ==> map_lookup(map_put(s, k, v), k2)
            == map_lookup(s, k2),
{
    let t = map_put(s, k, v);
    if map_has_key(s, k) {
        let i = map_key_index(s, k);
        assert(0 <= i < s.len() && s[i].0 == k);
        assert(t[i] == (k, v));
        assert(map_has_key(t, k));
        assert forall|a: int, b: int| 0 <= a < b < t.len()
            implies (#[trigger] t[a]).0 != (#[trigger] t[b]).0 by {
            assert(s[a].0 != s[b].0);
        }
        let w = map_key_index(t, k);
        assert(0 <= w < t.len() && t[w].0 == k);
        assert(w == i);
    } else {
        assert(t[s.len() as int] == (k, v));
        assert(map_has_key(t, k));
        assert forall|a: int, b: int| 0 <= a < b < t.len()
            implies (#[trigger] t[a]).0 != (#[trigger] t[b]).0 by {
            if b < t.len() - 1 {
                assert(s[a].0 != s[b].0);
            } else {
                assert(s[a].0 != k);
            }
        }
        let w = map_key_index(t, k);
        assert(0 <= w < t.len() && t[w].0 == k);
        assert(w == s.len());
    }
    assert forall|k2: Seq<char>| k2 != k implies map_has_key(t, k2) == map_has_key(s, k2) by {
        if map_has_key(s, k2) {
            let i2 = map_key_index(s, k2);
            assert(t[i2].0 == k2);
        }
        if map_has_key(t, k2) {
            let i2 = map_key_index(t, k2);
            assert(0 <= i2 < t.len() && t[i2].0 == k2);
            assert(s[i2].0 == k2);
        }
    }
    assert forall|k2: Seq<char>| k2 != k && map_has_key(s, k2) implies map_lookup(t, k2)
        == map_lookup(s, k2) by {
        let i2 = map_key_index(s, k2);
        assert(0 <= i2 < s.len() && s[i2].0 == k2);
        assert(t[i2].0 == k2);
        let w2 = map_key_index(t, k2);
        assert(0 <= w2 < t.len() && t[w2].0 == k2);
        assert(unique_keys(t));
        assert(w2 == i2);
        assert(s[i2].1 == map_lookup(s, k2));
    }
}


/// The keys of the entries, in table order.
pub open spec fn map_keys<T>(s: Seq<(Seq<char>, T)>) -> Seq<Seq<char>> {
    s.map_values(|e: (Seq<char>, T)| e.0)
}

impl<V: View> NameMap<V> {
    /// The keys of the table, in table order.
    pub fn keys(&self) -> (r: Vec<String>)
        ensures
            crate::strutil::strs_view(r@) == map_keys(self.view()),
    {
        let mut r: Vec<String> = Vec::new();
        let n = self.len();
        let mut i: usize = 0;
        while i < n
            invariant
                i <= n == self.view().len(),
                crate::strutil::strs_view(r@) == map_keys(self.view()).subrange(0, i as int),
            decreases n - i,
        {
            let k = self.key_at(i).clone();
            proof {
                assert(k@ == self.view()[i as int].0);
                assert(crate::strutil::strs_view(r@).len() == r@.len());
                assert(r@.len() == i as int);
            }
            r.push(k);
            proof {
                assert(map_keys(self.view()).len() == self.view().len());
                let pfx1 = map_keys(self.view()).subrange(0, i + 1 as int);
                assert(crate::strutil::strs_view(r@).len() == r@.len());
                assert(r@.len() == i + 1);
                assert(crate::strutil::strs_view(r@).len() == pfx1.len());
                assert forall|j: int| 0 <= j < pfx1.len() implies crate::strutil::strs_view(
                    r@,
                )[j] == pfx1[j] by {
                    assert(pfx1[j] == map_keys(self.view())[j]);
                    assert(map_keys(self.view())[j] == self.view()[j].0);
                }
                assert(crate::strutil::strs_view(r@) =~= pfx1);
            }
            i = i + 1;
        }
        proof {
            assert(map_keys(self.view()).subrange(0, n as int) =~= map_keys(self.view()));
        }
        r
    }
}

} // verus!
