//! Narrow per-table accessors over string-keyed association lists and
//! string sets. Every repository of the oracle state is one of these, with
//! key distinctness as its invariant.

use vstd::prelude::*;

verus! {

/// No two entries share a key.
pub open spec fn keys_distinct<V>(s: Seq<(String, V)>) -> bool {
    forall|i: int, j: int| 0 <= i < j < s.len() ==> s[i].0@ != s[j].0@
}

/// Some entry has the key `k`.
pub open spec fn has_key<V>(s: Seq<(String, V)>, k: Seq<char>) -> bool {
    exists|i: int| 0 <= i < s.len() && s[i].0@ == k
}

/// The index of the entry with key `k` (meaningful only when `has_key`).
pub open spec fn idx_of<V>(s: Seq<(String, V)>, k: Seq<char>) -> int {
    choose|i: int| 0 <= i < s.len() && s[i].0@ == k
}

/// The value stored under key `k` (meaningful only when `has_key`).
pub open spec fn val_of<V>(s: Seq<(String, V)>, k: Seq<char>) -> V {
    s[idx_of(s, k)].1
}

/// `n` is `o` with the value under `k` replaced by `v`, or with `(k, v)`
/// appended when `k` was absent.
pub open spec fn upserted<V>(o: Seq<(String, V)>, n: Seq<(String, V)>, k: Seq<char>, v: V) -> bool {
    if has_key(o, k) {
        let i = idx_of(o, k);
        &&& n.len() == o.len()
        &&& forall|j: int| 0 <= j < o.len() && j != i ==> n[j] == o[j]
        &&& n[i].0@ == k
        &&& n[i].1 == v
    } else {
        &&& n.len() == o.len() + 1
        &&& forall|j: int| 0 <= j < o.len() ==> n[j] == o[j]
        &&& n[o.len() as int].0@ == k
        &&& n[o.len() as int].1 == v
    }
}

/// `n` is `o` with the entry under `k` removed, or `o` itself when `k` was
/// absent.
pub open spec fn key_removed<V>(o: Seq<(String, V)>, n: Seq<(String, V)>, k: Seq<char>) -> bool {
    if has_key(o, k) {
        n == o.remove(idx_of(o, k))
    } else {
        n == o
    }
}

/// With distinct keys, the entry index for a present key is unique.
pub proof fn lemma_idx_unique<V>(s: Seq<(String, V)>, k: Seq<char>, i: int)
    requires
        keys_distinct(s),
        0 <= i < s.len(),
        s[i].0@ == k,
    ensures
        idx_of(s, k) == i,
        has_key(s, k),
{
    assert(has_key(s, k));
    let j = idx_of(s, k);
    if j != i {
        assert(s[i].0@ == s[j].0@);
        assert(false);
    }
}

/// What an upsert does to every observable of the table.
pub proof fn lemma_upserted<V>(o: Seq<(String, V)>, n: Seq<(String, V)>, k: Seq<char>, v: V)
    requires
        keys_distinct(o),
        upserted(o, n, k, v),
    ensures
        keys_distinct(n),
        has_key(n, k),
        val_of(n, k) == v,
        forall|k2: Seq<char>| k2 != k ==> has_key(n, k2) == has_key(o, k2),
        forall|k2: Seq<char>|
            k2 != k && has_key(o, k2) ==> #[trigger] val_of(n, k2) == val_of(o, k2),
{
    if has_key(o, k) {
        let i = idx_of(o, k);
        assert(forall|j: int| 0 <= j < n.len() ==> n[j].0@ == o[j].0@);
        assert(keys_distinct(n));
        lemma_idx_unique(n, k, i);
        assert forall|k2: Seq<char>| k2 != k implies has_key(n, k2) == has_key(o, k2) by {
            if has_key(o, k2) {
                let j = idx_of(o, k2);
                assert(n[j].0@ == k2);
            }
            if has_key(n, k2) {
                let j = idx_of(n, k2);
                assert(o[j].0@ == k2);
            }
        }
        assert forall|k2: Seq<char>| k2 != k && has_key(o, k2) implies #[trigger] val_of(n, k2)
            == val_of(o, k2) by {
            let j = idx_of(o, k2);
            lemma_idx_unique(o, k2, j);
            assert(j != i);
            assert(n[j] == o[j]);
            lemma_idx_unique(n, k2, j);
        }
    } else {
        let l = o.len() as int;
        assert forall|i: int, j: int| 0 <= i < j < n.len() implies n[i].0@ != n[j].0@ by {
            if j < l {
                assert(n[i] == o[i] && n[j] == o[j]);
            } else {
                assert(n[j].0@ == k);
                assert(n[i] == o[i]);
                assert(has_key(o, k) || n[i].0@ != k);
            }
        }
        lemma_idx_unique(n, k, l);
        assert forall|k2: Seq<char>| k2 != k implies has_key(n, k2) == has_key(o, k2) by {
            if has_key(o, k2) {
                let j = idx_of(o, k2);
                assert(n[j].0@ == k2);
            }
            if has_key(n, k2) {
                let j = idx_of(n, k2);
                assert(j != l);
                assert(o[j].0@ == k2);
            }
        }
        assert forall|k2: Seq<char>| k2 != k && has_key(o, k2) implies #[trigger] val_of(n, k2)
            == val_of(o, k2) by {
            let j = idx_of(o, k2);
            lemma_idx_unique(o, k2, j);
            assert(n[j] == o[j]);
            lemma_idx_unique(n, k2, j);
        }
    }
}

/// What a removal does to every observable of the table.
pub proof fn lemma_key_removed<V>(o: Seq<(String, V)>, n: Seq<(String, V)>, k: Seq<char>)
    requires
        keys_distinct(o),
        key_removed(o, n, k),
    ensures
        keys_distinct(n),
        !has_key(n, k),
        forall|k2: Seq<char>| k2 != k ==> has_key(n, k2) == has_key(o, k2),
        forall|k2: Seq<char>|
            k2 != k && has_key(o, k2) ==> #[trigger] val_of(n, k2) == val_of(o, k2),
    {
    if has_key(o, k) {
        let i = idx_of(o, k);
        lemma_idx_unique(o, k, i);
        assert(forall|j: int| 0 <= j < i ==> n[j] == o[j]);
        assert(forall|j: int| i <= j < n.len() ==> n[j] == o[j + 1]);
        assert forall|p: int, q: int| 0 <= p < q < n.len() implies n[p].0@ != n[q].0@ by {
            let p0 = if p < i { p } else { p + 1 };
            let q0 = if q < i { q } else { q + 1 };
            assert(n[p] == o[p0] && n[q] == o[q0]);
        }
        if has_key(n, k) {
            let j = idx_of(n, k);
            let j0 = if j < i { j } else { j + 1 };
            assert(o[j0].0@ == k);
            lemma_idx_unique(o, k, j0);
            assert(false);
        }
        assert forall|k2: Seq<char>| k2 != k implies has_key(n, k2) == has_key(o, k2) by {
            if has_key(o, k2) {
                let j = idx_of(o, k2);
                lemma_idx_unique(o, k2, j);
                assert(j != i);
                if j < i {
                    assert(n[j].0@ == k2);
                } else {
                    assert(n[j - 1].0@ == k2);
                }
            }
            if has_key(n, k2) {
                let j = idx_of(n, k2);
                let j0 = if j < i { j } else { j + 1 };
                assert(o[j0].0@ == k2);
            }
        }
        assert forall|k2: Seq<char>| k2 != k && has_key(o, k2) implies #[trigger] val_of(n, k2)
            == val_of(o, k2) by {
            let j = idx_of(o, k2);
            lemma_idx_unique(o, k2, j);
            assert(j != i);
            let j1 = if j < i { j } else { j - 1 };
            assert(n[j1] == o[j]);
            lemma_idx_unique(n, k2, j1);
        }
    }
}

/// A string-keyed table whose entries keep their insertion order.
pub struct KvMap<V> {
    pub pairs: Vec<(String, V)>,
}

impl<V> KvMap<V> {
    pub open spec fn wf(&self) -> bool {
        keys_distinct(self.pairs@)
    }

    pub open spec fn spec_has(&self, k: Seq<char>) -> bool {
        has_key(self.pairs@, k)
    }

    pub open spec fn spec_get(&self, k: Seq<char>) -> V {
        val_of(self.pairs@, k)
    }

    pub fn new() -> (r: KvMap<V>)
        ensures
            r.pairs@ =~= Seq::<(String, V)>::empty(),
            r.wf(),
    {
        KvMap { pairs: Vec::new() }
    }

    pub fn len(&self) -> (r: usize)
        ensures
            r == self.pairs@.len(),
    {
        self.pairs.len()
    }

    /// The index of the entry with key `k`, if any.
    fn find(&self, k: &String) -> (r: Option<usize>)
        requires
            self.wf(),
        ensures
            match r {
                Some(i) => i < self.pairs@.len() && self.pairs@[i as int].0@ == k@ && i
                    == idx_of(self.pairs@, k@),
                None => !self.spec_has(k@),
            },
    {
        let n = self.pairs.len();
        let mut i: usize = 0;
        while i < n
            invariant
                n == self.pairs@.len(),
                i <= n,
                self.wf(),
                forall|j: int| 0 <= j < i ==> self.pairs@[j].0@ != k@,
            decreases n - i,
        {
            if self.pairs[i].0 == *k {
                proof {
                    lemma_idx_unique(self.pairs@, k@, i as int);
                }
                return Some(i);
            }
            i += 1;
        }
        None
    }

    pub fn get<'a>(&'a self, k: &String) -> (r: Option<&'a V>)
        requires
            self.wf(),
        ensures
            match r {
                Some(v) => self.spec_has(k@) && *v == self.spec_get(k@),
                None => !self.spec_has(k@),
            },
    {
        match self.find(k) {
            Some(i) => Some(&self.pairs[i].1),
            None => None,
        }
    }

    pub fn contains(&self, k: &String) -> (r: bool)
        requires
            self.wf(),
        ensures
            r == self.spec_has(k@),
    {
        self.find(k).is_some()
    }

    pub fn insert(&mut self, k: String, v: V)
        requires
            old(self).wf(),
        ensures
            upserted(old(self).pairs@, final(self).pairs@, k@, v),
            final(self).wf(),
    {
        let ghost o = self.pairs@;
        match self.find(&k) {
            Some(i) => {
                self.pairs.remove(i);
                self.pairs.insert(i, (k, v));
                proof {
                    assert(self.pairs@ =~= o.update(idx_of(o, k@), (k, v)));
                    lemma_upserted(o, self.pairs@, k@, v);
                }
            },
            None => {
                self.pairs.push((k, v));
                proof {
                    lemma_upserted(o, self.pairs@, k@, v);
                }
            },
        }
    }

    pub fn remove(&mut self, k: &String) -> (r: Option<V>)
        requires
            old(self).wf(),
        ensures
            key_removed(old(self).pairs@, final(self).pairs@, k@),
            final(self).wf(),
            match r {
                Some(v) => old(self).spec_has(k@) && v == old(self).spec_get(k@),
                None => !old(self).spec_has(k@),
            },
    {
        let ghost o = self.pairs@;
        match self.find(k) {
            Some(i) => {
                let (_, v) = self.pairs.remove(i);
                proof {
                    lemma_key_removed(o, self.pairs@, k@);
                }
                Some(v)
            },
            None => None,
        }
    }
}

/// No two elements are equal.
pub open spec fn strs_distinct(s: Seq<String>) -> bool {
    forall|i: int, j: int| 0 <= i < j < s.len() ==> s[i]@ != s[j]@
}

/// Some element equals `k`.
pub open spec fn has_str(s: Seq<String>, k: Seq<char>) -> bool {
    exists|i: int| 0 <= i < s.len() && s[i]@ == k
}

/// The index of the element equal to `k` (meaningful only when `has_str`).
pub open spec fn str_idx_of(s: Seq<String>, k: Seq<char>) -> int {
    choose|i: int| 0 <= i < s.len() && s[i]@ == k
}

/// `n` is `o` with `k` added at the end, or `o` itself when already present.
pub open spec fn str_inserted(o: Seq<String>, n: Seq<String>, k: Seq<char>) -> bool {
    if has_str(o, k) {
        n == o
    } else {
        &&& n.len() == o.len() + 1
        &&& forall|j: int| 0 <= j < o.len() ==> n[j] == o[j]
        &&& n[o.len() as int]@ == k
    }
}

/// `n` is `o` with `k` removed, or `o` itself when absent.
pub open spec fn str_removed(o: Seq<String>, n: Seq<String>, k: Seq<char>) -> bool {
    if has_str(o, k) {
        n == o.remove(str_idx_of(o, k))
    } else {
        n == o
    }
}

/// With distinct elements, the index of a present element is unique.
pub proof fn lemma_str_idx_unique(s: Seq<String>, k: Seq<char>, i: int)
    requires
        strs_distinct(s),
        0 <= i < s.len(),
        s[i]@ == k,
    ensures
        str_idx_of(s, k) == i,
        has_str(s, k),
{
    assert(has_str(s, k));
    let j = str_idx_of(s, k);
    if j != i {
        assert(s[i]@ == s[j]@);
        assert(false);
    }
}

/// What an insertion does to every observable of the set.
pub proof fn lemma_str_inserted(o: Seq<String>, n: Seq<String>, k: Seq<char>)
    requires
        strs_distinct(o),
        str_inserted(o, n, k),
    ensures
        strs_distinct(n),
        has_str(n, k),
        forall|k2: Seq<char>| k2 != k ==> has_str(n, k2) == has_str(o, k2),
{
    if has_str(o, k) {
    } else {
        let l = o.len() as int;
        assert forall|i: int, j: int| 0 <= i < j < n.len() implies n[i]@ != n[j]@ by {
            if j < l {
                assert(n[i] == o[i] && n[j] == o[j]);
            } else {
                assert(n[j]@ == k);
                assert(n[i] == o[i]);
                assert(has_str(o, k) || n[i]@ != k);
            }
        }
        assert(n[l]@ == k);
        assert forall|k2: Seq<char>| k2 != k implies has_str(n, k2) == has_str(o, k2) by {
            if has_str(o, k2) {
                let j = str_idx_of(o, k2);
                assert(n[j]@ == k2);
            }
            if has_str(n, k2) {
                let j = str_idx_of(n, k2);
                assert(j != l);
                assert(o[j]@ == k2);
            }
        }
    }
}

/// What a removal does to every observable of the set.
pub proof fn lemma_str_removed(o: Seq<String>, n: Seq<String>, k: Seq<char>)
    requires
        strs_distinct(o),
        str_removed(o, n, k),
    ensures
        strs_distinct(n),
        !has_str(n, k),
        forall|k2: Seq<char>| k2 != k ==> has_str(n, k2) == has_str(o, k2),
{
    if has_str(o, k) {
        let i = str_idx_of(o, k);
        lemma_str_idx_unique(o, k, i);
        assert(forall|j: int| 0 <= j < i ==> n[j] == o[j]);
        assert(forall|j: int| i <= j < n.len() ==> n[j] == o[j + 1]);
        assert forall|p: int, q: int| 0 <= p < q < n.len() implies n[p]@ != n[q]@ by {
            let p0 = if p < i { p } else { p + 1 };
            let q0 = if q < i { q } else { q + 1 };
            assert(n[p] == o[p0] && n[q] == o[q0]);
        }
        if has_str(n, k) {
            let j = str_idx_of(n, k);
            let j0 = if j < i { j } else { j + 1 };
            assert(o[j0]@ == k);
            lemma_str_idx_unique(o, k, j0);
            assert(false);
        }
        assert forall|k2: Seq<char>| k2 != k implies has_str(n, k2) == has_str(o, k2) by {
            if has_str(o, k2) {
                let j = str_idx_of(o, k2);
                lemma_str_idx_unique(o, k2, j);
                if j < i {
                    assert(n[j]@ == k2);
                } else {
                    assert(n[j - 1]@ == k2);
                }
            }
            if has_str(n, k2) {
                let j = str_idx_of(n, k2);
                let j0 = if j < i { j } else { j + 1 };
                assert(o[j0]@ == k2);
            }
        }
    }
}

/// A set of strings that keeps its insertion order.
pub struct StringSet {
    pub items: Vec<String>,
}

impl StringSet {
    pub open spec fn wf(&self) -> bool {
        strs_distinct(self.items@)
    }

    pub open spec fn spec_has(&self, k: Seq<char>) -> bool {
        has_str(self.items@, k)
    }

    pub fn new() -> (r: StringSet)
        ensures
            r.items@ =~= Seq::<String>::empty(),
            r.wf(),
    {
        StringSet { items: Vec::new() }
    }

    pub fn len(&self) -> (r: usize)
        ensures
            r == self.items@.len(),
    {
        self.items.len()
    }

    fn find(&self, k: &String) -> (r: Option<usize>)
        requires
            self.wf(),
        ensures
            match r {
                Some(i) => i < self.items@.len() && self.items@[i as int]@ == k@ && i == str_idx_of(
                    self.items@,
                    k@,
                ),
                None => !self.spec_has(k@),
            },
    {
        let n = self.items.len();
        let mut i: usize = 0;
        while i < n
            invariant
                n == self.items@.len(),
                i <= n,
                self.wf(),
                forall|j: int| 0 <= j < i ==> self.items@[j]@ != k@,
            decreases n - i,
        {
            if self.items[i] == *k {
                proof {
                    lemma_str_idx_unique(self.items@, k@, i as int);
                }
                return Some(i);
            }
            i += 1;
        }
        None
    }

    pub fn contains(&self, k: &String) -> (r: bool)
        requires
            self.wf(),
        ensures
            r == self.spec_has(k@),
    {
        self.find(k).is_some()
    }

    pub fn insert(&mut self, k: String)
        requires
            old(self).wf(),
        ensures
            str_inserted(old(self).items@, final(self).items@, k@),
            final(self).wf(),
    {
        let ghost o = self.items@;
        match self.find(&k) {
            Some(_) => {
            },
            None => {
                self.items.push(k);
            },
        }
        proof {
            lemma_str_inserted(o, self.items@, k@);
        }
    }

    pub fn remove(&mut self, k: &String)
        requires
            old(self).wf(),
        ensures
            str_removed(old(self).items@, final(self).items@, k@),
            final(self).wf(),
    {
        let ghost o = self.items@;
        match self.find(k) {
            Some(i) => {
                self.items.remove(i);
            },
            None => {
            },
        }
        proof {
            lemma_str_removed(o, self.items@, k@);
        }
    }

    pub fn clear(&mut self)
        ensures
            final(self).items@ =~= Seq::<String>::empty(),
            final(self).wf(),
    {
        self.items.clear();
    }

    /// A copy of the elements, in insertion order.
    pub fn to_vec(&self) -> (r: Vec<String>)
        ensures
            r@.map_values(|s: String| s@) =~= self.items@.map_values(|s: String| s@),
    {
        let n = self.items.len();
        let mut r: Vec<String> = Vec::new();
        let mut i: usize = 0;
        while i < n
            invariant
                n == self.items@.len(),
                i <= n,
                r@.map_values(|s: String| s@) =~= self.items@.subrange(0, i as int).map_values(
                    |s: String| s@,
                ),
            decreases n - i,
        {
            r.push(self.items[i].clone());
            proof {
                assert(self.items@.subrange(0, i + 1 as int).drop_last() =~= self.items@.subrange(
                    0,
                    i as int,
                ));
                assert(r@.map_values(|s: String| s@) =~= self.items@.subrange(0, i as int)
                    .map_values(|s: String| s@).push(self.items@[i as int]@));
                assert(self.items@.subrange(0, i + 1 as int).map_values(|s: String| s@)
                    =~= self.items@.subrange(0, i as int).map_values(|s: String| s@).push(
                    self.items@[i as int]@,
                ));
            }
            i += 1;
        }
        proof {
            assert(self.items@.subrange(0, n as int) =~= self.items@);
        }
        r
    }
}

} // verus!
