//! Small keyed tables: texts as keys, each key held once, in the order in
//! which the keys first came in. What is shown of a table, such as the
//! exits of a room, therefore comes in the same order in every run.

use vstd::prelude::*;
use crate::text::{str_eq, texts};

verus! {

/// `i` is the first place in `s` whose key is `k`.
pub open spec fn first_at<T>(s: Seq<(Seq<char>, T)>, k: Seq<char>, i: int) -> bool {
    &&& 0 <= i < s.len()
    &&& s[i].0 == k
    &&& forall|j: int| 0 <= j < i ==> (#[trigger] s[j]).0 != k
}

/// Some entry of `s` has the key `k`.
pub open spec fn has_key<T>(s: Seq<(Seq<char>, T)>, k: Seq<char>) -> bool {
    exists|i: int| first_at(s, k, i)
}

/// The place of the first entry of `s` with the key `k`.
pub open spec fn place_of<T>(s: Seq<(Seq<char>, T)>, k: Seq<char>) -> int {
    choose|i: int| first_at(s, k, i)
}

/// The value that `s` holds under `k`.
pub open spec fn lookup<T>(s: Seq<(Seq<char>, T)>, k: Seq<char>) -> Option<T> {
    if has_key(s, k) {
        Some(s[place_of(s, k)].1)
    } else {
        None
    }
}

/// `s` with `v` under `k`: in the place of the old value where `k` was there,
/// else as a new last entry.
pub open spec fn assign<T>(s: Seq<(Seq<char>, T)>, k: Seq<char>, v: T) -> Seq<(Seq<char>, T)> {
    if has_key(s, k) {
        s.update(place_of(s, k), (k, v))
    } else {
        s.push((k, v))
    }
}

/// The keys of `s`, in order.
pub open spec fn keys_of<T>(s: Seq<(Seq<char>, T)>) -> Seq<Seq<char>> {
    s.map_values(|e: (Seq<char>, T)| e.0)
}

/// No key stands twice in `s`.
pub open spec fn distinct_keys<T>(s: Seq<(Seq<char>, T)>) -> bool {
    forall|i: int, j: int|
        0 <= i < s.len() && 0 <= j < s.len() && (#[trigger] s[i]).0 == (#[trigger] s[j]).0 ==> i
            == j
}

/// The first place of a key is one place only.
pub proof fn lemma_first_at_unique<T>(s: Seq<(Seq<char>, T)>, k: Seq<char>, i: int, j: int)
    requires
        first_at(s, k, i),
        first_at(s, k, j),
    ensures
        i == j,
{
    if i < j {
        assert(s[i].0 != k);
    } else if j < i {
        assert(s[j].0 != k);
    }
}

/// Where the first place of `k` is known, so are the lookup and the update.
pub proof fn lemma_found<T>(s: Seq<(Seq<char>, T)>, k: Seq<char>, i: int)
    requires
        first_at(s, k, i),
    ensures
        has_key(s, k),
        place_of(s, k) == i,
        lookup(s, k) == Some(s[i].1),
        forall|v: T| #[trigger] assign(s, k, v) == s.update(i, (k, v)),
{
    lemma_first_at_unique(s, k, i, place_of(s, k));
}

/// A key that no entry has is not found, and is added at the end.
pub proof fn lemma_absent<T>(s: Seq<(Seq<char>, T)>, k: Seq<char>)
    requires
        forall|j: int| 0 <= j < s.len() ==> (#[trigger] s[j]).0 != k,
    ensures
        !has_key(s, k),
        lookup(s, k) is None,
        forall|v: T| #[trigger] assign(s, k, v) == s.push((k, v)),
{
    if has_key(s, k) {
        let i = place_of(s, k);
        assert(s[i].0 == k);
    }
}

/// A key that some entry has is found.
pub proof fn lemma_occurs<T>(s: Seq<(Seq<char>, T)>, k: Seq<char>, i: int)
    requires
        0 <= i < s.len(),
        s[i].0 == k,
    ensures
        has_key(s, k),
        place_of(s, k) <= i,
    decreases i,
{
    if forall|j: int| 0 <= j < i ==> (#[trigger] s[j]).0 != k {
        assert(first_at(s, k, i));
        lemma_found(s, k, i);
    } else {
        let j = choose|j: int| 0 <= j < i && (#[trigger] s[j]).0 == k;
        lemma_occurs(s, k, j);
    }
}

/// Reading after writing: the written key gives the new value, every other
/// key what it gave before.
pub proof fn lemma_assign_lookup<T>(s: Seq<(Seq<char>, T)>, k: Seq<char>, v: T, q: Seq<char>)
    ensures
        lookup(assign(s, k, v), q) == if q == k {
            Some(v)
        } else {
            lookup(s, q)
        },
        has_key(assign(s, k, v), q) == (q == k || has_key(s, q)),
{
    let t = assign(s, k, v);
    if has_key(s, k) {
        let i = place_of(s, k);
        assert(t == s.update(i, (k, v)));
        if q == k {
            assert(first_at(t, k, i)) by {
                assert forall|j: int| 0 <= j < i implies (#[trigger] t[j]).0 != k by {
                    assert(s[j].0 != k);
                }
            }
            lemma_found(t, k, i);
        } else if has_key(s, q) {
            let p = place_of(s, q);
            assert(first_at(t, q, p)) by {
                assert forall|j: int| 0 <= j < p implies (#[trigger] t[j]).0 != q by {
                    assert(s[j].0 != q);
                }
            }
            lemma_found(t, q, p);
        } else {
            if has_key(t, q) {
                let p = place_of(t, q);
                assert(t[p].0 == q);
                assert(s[p].0 == q);
                lemma_occurs(s, q, p);
            }
        }
    } else {
        assert(t == s.push((k, v)));
        if has_key(s, q) {
            let p = place_of(s, q);
            assert(first_at(t, q, p)) by {
                assert forall|j: int| 0 <= j < p implies (#[trigger] t[j]).0 != q by {
                    assert(s[j].0 != q);
                }
            }
            lemma_found(t, q, p);
        } else if q == k {
            let n = s.len() as int;
            assert(first_at(t, k, n)) by {
                assert forall|j: int| 0 <= j < n implies (#[trigger] t[j]).0 != k by {
                    if s[j].0 == k {
                        lemma_occurs(s, k, j);
                    }
                }
            }
            lemma_found(t, k, n);
        } else {
            if has_key(t, q) {
                let p = place_of(t, q);
                assert(t[p].0 == q);
                assert(p < s.len());
                assert(s[p].0 == q);
                lemma_occurs(s, q, p);
            }
        }
    }
}

/// Writing keeps the keys distinct.
pub proof fn lemma_assign_distinct<T>(s: Seq<(Seq<char>, T)>, k: Seq<char>, v: T)
    requires
        distinct_keys(s),
    ensures
        distinct_keys(assign(s, k, v)),
{
    let t = assign(s, k, v);
    if has_key(s, k) {
        assert forall|i: int, j: int|
            0 <= i < t.len() && 0 <= j < t.len() && (#[trigger] t[i]).0 == (#[trigger] t[j]).0
            implies i == j by {
            assert(s[i].0 == t[i].0);
            assert(s[j].0 == t[j].0);
        }
    } else {
        assert forall|i: int, j: int|
            0 <= i < t.len() && 0 <= j < t.len() && (#[trigger] t[i]).0 == (#[trigger] t[j]).0
            implies i == j by {
            if i < s.len() && j < s.len() {
                assert(s[i].0 == s[j].0);
            } else if i < s.len() {
                lemma_occurs(s, k, i);
            } else if j < s.len() {
                lemma_occurs(s, k, j);
            }
        }
    }
}

/// A table from text keys to values of one type.
#[derive(Debug, Clone)]
pub struct Table<V> {
    entries: Vec<(String, V)>,
}

impl<V: View> View for Table<V> {
    type V = Seq<(Seq<char>, V::V)>;

    closed spec fn view(&self) -> Seq<(Seq<char>, V::V)> {
        self.entries@.map_values(|e: (String, V)| (e.0@, e.1@))
    }
}

impl<V: View> Table<V> {
    /// What holds of every table that `new` and `insert` built: no key
    /// stands twice.
    pub open spec fn wf(&self) -> bool {
        distinct_keys(self@)
    }

    /// The empty table.
    pub fn new() -> (r: Self)
        ensures
            r@ == Seq::<(Seq<char>, V::V)>::empty(),
            r.wf(),
    {
        let r = Table { entries: Vec::new() };
        assert(r@ =~= Seq::<(Seq<char>, V::V)>::empty());
        r
    }

    /// The number of entries.
    pub fn len(&self) -> (n: usize)
        ensures
            n == self@.len(),
    {
        self.entries.len()
    }

    /// Whether the table has no entry.
    pub fn is_empty(&self) -> (b: bool)
        ensures
            b == (self@.len() == 0),
    {
        self.entries.len() == 0
    }

    /// The key of the entry at `i`.
    pub fn key_at(&self, i: usize) -> (k: &String)
        requires
            i < self@.len(),
        ensures
            k@ == self@[i as int].0,
    {
        &self.entries[i].0
    }

    /// The value of the entry at `i`.
    pub fn value_at(&self, i: usize) -> (v: &V)
        requires
            i < self@.len(),
        ensures
            v@ == self@[i as int].1,
    {
        &self.entries[i].1
    }

    fn find(&self, key: &str) -> (r: Option<usize>)
        ensures
            match r {
                Some(i) => first_at(self@, key@, i as int),
                None => forall|j: int| 0 <= j < self@.len() ==> (#[trigger] self@[j]).0 != key@,
            },
    {
        let mut i: usize = 0;
        while i < self.entries.len()
            invariant
                i <= self.entries.len(),
                forall|j: int| 0 <= j < i ==> (#[trigger] self@[j]).0 != key@,
            decreases self.entries.len() - i,
        {
            if str_eq(self.entries[i].0.as_str(), key) {
                return Some(i);
            }
            i += 1;
        }
        None
    }

    /// The value under `key`, if the table has the key.
    pub fn get(&self, key: &str) -> (r: Option<&V>)
        ensures
            match r {
                Some(v) => lookup(self@, key@) == Some(v@),
                None => lookup(self@, key@) is None,
            },
    {
        match self.find(key) {
            Some(i) => {
                proof {
                    lemma_found(self@, key@, i as int);
                }
                Some(&self.entries[i].1)
            },
            None => {
                proof {
                    lemma_absent(self@, key@);
                }
                None
            },
        }
    }

    /// Whether the table has `key`.
    pub fn contains_key(&self, key: &str) -> (b: bool)
        ensures
            b == has_key(self@, key@),
    {
        match self.find(key) {
            Some(i) => {
                proof {
                    lemma_found(self@, key@, i as int);
                }
                true
            },
            None => {
                proof {
                    lemma_absent(self@, key@);
                }
                false
            },
        }
    }

    /// Puts `value` under `key`: in the place of the old value where the key
    /// was there, else as a new last entry.
    pub fn insert(&mut self, key: String, value: V)
        ensures
            final(self)@ == assign(old(self)@, key@, value@),
            old(self).wf() ==> final(self).wf(),
    {
        proof {
            if self.wf() {
                lemma_assign_distinct(self@, key@, value@);
            }
        }
        match self.find(key.as_str()) {
            Some(i) => {
                proof {
                    lemma_found(self@, key@, i as int);
                }
                self.entries[i] = (key, value);
                assert(self@ =~= old(self)@.update(i as int, (key@, value@)));
            },
            None => {
                proof {
                    lemma_absent(self@, key@);
                }
                self.entries.push((key, value));
                assert(self@ =~= old(self)@.push((key@, value@)));
            },
        }
    }

    /// The keys, in the order of the entries.
    pub fn keys(&self) -> (r: Vec<String>)
        ensures
            texts(r@) == keys_of(self@),
    {
        let mut out: Vec<String> = Vec::new();
        let mut i: usize = 0;
        while i < self.entries.len()
            invariant
                i <= self.entries.len(),
                texts(out@) == keys_of(self@).take(i as int),
            decreases self.entries.len() - i,
        {
            let ghost before = texts(out@);
            out.push(self.entries[i].0.clone());
            assert(texts(out@) =~= before.push(self@[i as int].0));
            i += 1;
            assert(texts(out@) =~= keys_of(self@).take(i as int));
        }
        assert(keys_of(self@).take(self.entries.len() as int) =~= keys_of(self@));
        out
    }
}

impl Table<bool> {
    /// A table of its own with the same entries.
    pub fn duplicate(&self) -> (r: Self)
        ensures
            r@ == self@,
    {
        let mut out: Vec<(String, bool)> = Vec::new();
        let mut i: usize = 0;
        while i < self.entries.len()
            invariant
                i <= self.entries.len(),
                out@.len() == i,
                forall|j: int| 0 <= j < i ==> out@[j].0@ == self.entries@[j].0@ && out@[j].1
                    == self.entries@[j].1,
            decreases self.entries.len() - i,
        {
            out.push((self.entries[i].0.clone(), self.entries[i].1));
            i += 1;
        }
        let r = Table { entries: out };
        assert(r@ =~= self@);
        r
    }
}

} // verus!
