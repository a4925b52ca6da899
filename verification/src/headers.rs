//! The header mapping: case-insensitive keys stored lowercased, values
//! kept verbatim, insertion order preserved.  It offers the two distinct
//! insertions the codec needs — `set`, which replaces, for callers, and
//! `fold_insert`, which combines duplicate keys, for the parser.

use vstd::prelude::*;
use vstd::string::{StringExecFns, StrSliceExecFns};
use crate::model::{distinct_keys, fold_header, headers_map_of, key_index, lemma_headers_map_of, lemma_key_index};
use crate::text::{lemma_lower_idempotent, lower};
use crate::text_exec::{eq_str, lower_string};

verus! {

/// An insertion-ordered mapping from lowercased header keys to values.
pub struct Headers {
    entries: Vec<(String, String)>,
}

impl View for Headers {
    type V = Map<Seq<char>, Seq<char>>;

    /// The mapping the entries denote.
    closed spec fn view(&self) -> Map<Seq<char>, Seq<char>> {
        headers_map_of(self.seq())
    }
}

/// The mapping a `Headers` value denotes is exactly the one its entry
/// sequence denotes.
pub proof fn lemma_headers_view(h: Headers)
    ensures
        h@ == headers_map_of(h.seq()),
{
}

impl Headers {
    /// The entries in storage order — the order serialization emits them.
    pub closed spec fn seq(&self) -> Seq<(Seq<char>, Seq<char>)> {
        Seq::new(self.entries@.len(), |i: int| (self.entries@[i].0@, self.entries@[i].1@))
    }

    /// Keys are pairwise distinct and stored lowercased.  Constructors
    /// establish this and every method keeps it.
    pub open spec fn wf(&self) -> bool {
        &&& distinct_keys(self.seq())
        &&& forall|i: int|
            0 <= i < self.seq().len() ==> lower((#[trigger] self.seq()[i]).0) == self.seq()[i].0
    }

    /// An empty mapping.
    pub fn new() -> (h: Headers)
        ensures
            h.wf(),
            h.seq() == Seq::<(Seq<char>, Seq<char>)>::empty(),
            h@ == Map::<Seq<char>, Seq<char>>::empty(),
    {
        let h = Headers { entries: Vec::new() };
        proof {
            assert(h.seq() =~= Seq::<(Seq<char>, Seq<char>)>::empty());
        }
        h
    }

    /// Number of entries.
    pub fn len(&self) -> (n: usize)
        ensures
            n == self.seq().len(),
    {
        self.entries.len()
    }

    /// The key of the entry at `i`, in storage order.
    pub fn key_at(&self, i: usize) -> (r: &String)
        requires
            i < self.seq().len(),
        ensures
            r@ == self.seq()[i as int].0,
    {
        &self.entries[i].0
    }

    /// The value of the entry at `i`, in storage order.
    pub fn value_at(&self, i: usize) -> (r: &String)
        requires
            i < self.seq().len(),
        ensures
            r@ == self.seq()[i as int].1,
    {
        &self.entries[i].1
    }

    /// Position of the entry whose key is `k`, if any.
    fn find(&self, k: &str) -> (r: Option<usize>)
        ensures
            match r {
                Some(j) => key_index(self.seq(), k@) == Some(j as int),
                None => key_index(self.seq(), k@) is None,
            },
    {
        let n = self.entries.len();
        let mut i: usize = 0;
        while i < n
            invariant
                i <= n,
                n == self.seq().len(),
                n == self.entries@.len(),
                forall|j: int| 0 <= j < i ==> (#[trigger] self.seq()[j]).0 != k@,
            decreases n - i,
        {
            if eq_str(self.entries[i].0.as_str(), k) {
                proof {
                    assert(self.seq()[i as int].0 == k@);
                    lemma_key_index(self.seq(), k@);
                    match key_index(self.seq(), k@) {
                        Some(m) => {
                            if m < i {
                                assert((#[trigger] self.seq()[m]).0 != k@);
                            } else if m > i {
                                assert(self.seq()[i as int].0 != k@);
                            }
                        },
                        None => {
                            assert(self.seq()[i as int].0 != k@);
                        },
                    }
                }
                return Some(i);
            }
            i += 1;
        }
        proof {
            lemma_key_index(self.seq(), k@);
        }
        None
    }

    /// Looks a key up case-insensitively.
    pub fn get(&self, key: &str) -> (r: Option<&String>)
        requires
            self.wf(),
        ensures
            match r {
                Some(v) => self@.contains_key(lower(key@)) && v@ == self@[lower(key@)],
                None => !self@.contains_key(lower(key@)),
            },
    {
        proof {
            lemma_headers_map_of(self.seq());
            lemma_key_index(self.seq(), lower(key@));
        }
        let lk = lower_string(key);
        match self.find(lk.as_str()) {
            Some(j) => Some(&self.entries[j].1),
            None => None,
        }
    }

    /// Inserts the lowercased key with this exact value, replacing any
    /// prior value outright — the caller-facing insertion, distinct from
    /// the parser's folding one.  Returns the replaced value, if any.
    pub fn set(&mut self, key: &str, value: &str) -> (prev: Option<String>)
        requires
            old(self).wf(),
        ensures
            final(self).wf(),
            final(self)@ == old(self)@.insert(lower(key@), value@),
            prev is Some <==> old(self)@.contains_key(lower(key@)),
            prev matches Some(p) ==> p@ == old(self)@[lower(key@)],
            match key_index(old(self).seq(), lower(key@)) {
                Some(j) => final(self).seq() == old(self).seq().update(
                    j,
                    (lower(key@), value@),
                ),
                None => final(self).seq() == old(self).seq().push((lower(key@), value@)),
            },
    {
        proof {
            lemma_headers_map_of(self.seq());
            lemma_key_index(self.seq(), lower(key@));
        }
        let ghost hs0 = self.seq();
        let lk = lower_string(key);
        let v = String::from_str(value);
        match self.find(lk.as_str()) {
            Some(j) => {
                let old_pair = self.entries.remove(j);
                self.entries.insert(j, (lk, v));
                proof {
                    assert(self.seq() =~= hs0.update(j as int, (lower(key@), value@)));
                    lemma_set_update_view(hs0, j as int, value@);
                    assert(lower(lower(key@)) == lower(key@)) by {
                        lemma_lower_idempotent(key@);
                    }
                }
                Some(old_pair.1)
            },
            None => {
                self.entries.push((lk, v));
                proof {
                    assert(self.seq() =~= hs0.push((lower(key@), value@)));
                    lemma_set_push_view(hs0, lower(key@), value@);
                    assert(lower(lower(key@)) == lower(key@)) by {
                        lemma_lower_idempotent(key@);
                    }
                }
                None
            },
        }
    }

    /// Removes the entry for the lowercased key, returning its value.
    pub fn remove(&mut self, key: &str) -> (prev: Option<String>)
        requires
            old(self).wf(),
        ensures
            final(self).wf(),
            final(self)@ == old(self)@.remove(lower(key@)),
            prev is Some <==> old(self)@.contains_key(lower(key@)),
            prev matches Some(p) ==> p@ == old(self)@[lower(key@)],
            match key_index(old(self).seq(), lower(key@)) {
                Some(j) => final(self).seq() == old(self).seq().remove(j),
                None => final(self).seq() == old(self).seq(),
            },
    {
        proof {
            lemma_headers_map_of(self.seq());
            lemma_key_index(self.seq(), lower(key@));
        }
        let ghost hs0 = self.seq();
        let lk = lower_string(key);
        match self.find(lk.as_str()) {
            Some(j) => {
                let old_pair = self.entries.remove(j);
                proof {
                    assert(self.seq() =~= hs0.remove(j as int));
                    lemma_remove_view(hs0, j as int);
                }
                Some(old_pair.1)
            },
            None => {
                proof {
                    assert(self.seq() =~= hs0);
                    assert(!old(self)@.contains_key(lower(key@)));
                    assert(final(self)@ =~= old(self)@.remove(lower(key@)));
                }
                None
            },
        }
    }

    /// The parser's insertion: a fresh key is added at the end; a repeated
    /// key keeps its place and has the new value appended after `", "`.
    pub fn fold_insert(&mut self, key: &str, value: &str)
        requires
            old(self).wf(),
        ensures
            final(self).wf(),
            final(self)@ == fold_header(old(self)@, lower(key@), value@),
    {
        proof {
            lemma_headers_map_of(self.seq());
            lemma_key_index(self.seq(), lower(key@));
            reveal_strlit(", ");
        }
        let ghost hs0 = self.seq();
        let lk = lower_string(key);
        match self.find(lk.as_str()) {
            Some(j) => {
                let mut pair = self.entries.remove(j);
                pair.1.append(", ");
                pair.1.append(value);
                let ghost merged = hs0[j as int].1 + seq![',', ' '] + value@;
                self.entries.insert(j, pair);
                proof {
                    assert(pair.1@ == merged);
                    assert(self.seq() =~= hs0.update(j as int, (lower(key@), merged)));
                    lemma_set_update_view(hs0, j as int, merged);
                    assert(lower(lower(key@)) == lower(key@)) by {
                        lemma_lower_idempotent(key@);
                    }
                    assert(old(self)@.contains_key(lower(key@)));
                    assert(old(self)@[lower(key@)] == hs0[j as int].1);
                }
            },
            None => {
                let v = String::from_str(value);
                self.entries.push((lk, v));
                proof {
                    assert(self.seq() =~= hs0.push((lower(key@), value@)));
                    lemma_set_push_view(hs0, lower(key@), value@);
                    assert(lower(lower(key@)) == lower(key@)) by {
                        lemma_lower_idempotent(key@);
                    }
                    assert(!old(self)@.contains_key(lower(key@)));
                }
            },
        }
    }
}

/// Updating the entry at `j` in place updates the mapping at its key.
proof fn lemma_set_update_view(hs: Seq<(Seq<char>, Seq<char>)>, j: int, v: Seq<char>)
    requires
        distinct_keys(hs),
        0 <= j < hs.len(),
    ensures
        distinct_keys(hs.update(j, (hs[j].0, v))),
        headers_map_of(hs.update(j, (hs[j].0, v))) == headers_map_of(hs).insert(hs[j].0, v),
{
    let k = hs[j].0;
    let hs2 = hs.update(j, (k, v));
    assert forall|a: int, b: int| 0 <= a < b < hs2.len() implies (#[trigger] hs2[a]).0 != (
    #[trigger] hs2[b]).0 by {
        assert(hs2[a].0 == hs[a].0);
        assert(hs2[b].0 == hs[b].0);
    }
    lemma_headers_map_of(hs);
    lemma_headers_map_of(hs2);
    assert forall|x: Seq<char>| true implies #[trigger] headers_map_of(hs2).contains_key(x)
        == headers_map_of(hs).insert(k, v).contains_key(x) by {
        lemma_key_index_same_keys(hs, hs2, x);
        lemma_key_index(hs, x);
        lemma_key_index(hs2, x);
        if x == k {
            assert(key_index(hs, k) is Some) by {
                lemma_key_index(hs, k);
                if key_index(hs, k) is None {
                    assert(hs[j].0 != k);
                }
            }
        }
    }
    assert forall|x: Seq<char>|
        headers_map_of(hs2).contains_key(x) implies #[trigger] headers_map_of(hs2)[x]
        == headers_map_of(hs).insert(k, v)[x] by {
        lemma_key_index(hs2, x);
        let i = key_index(hs2, x)->0;
        assert(headers_map_of(hs2)[hs2[i].0] == hs2[i].1);
        if x == k {
            assert(i == j) by {
                if i != j {
                    assert(hs2[i].0 == hs[i].0);
                    assert(hs[i].0 != hs[j].0);
                }
            }
        } else {
            assert(i != j);
            assert(hs2[i] == hs[i]);
            lemma_key_index(hs, x);
            lemma_key_index_same_keys(hs, hs2, x);
            assert(headers_map_of(hs)[hs[key_index(hs, x)->0].0] == hs[key_index(hs, x)->0].1);
            assert(key_index(hs, x) == key_index(hs2, x)) by {
                lemma_key_index(hs, x);
                assert(hs[i].0 == hs2[i].0);
            }
        }
    }
    assert(headers_map_of(hs2) =~= headers_map_of(hs).insert(k, v));
}

/// Two entry sequences with the same keys position for position find any
/// key at the same index.
proof fn lemma_key_index_same_keys(
    a: Seq<(Seq<char>, Seq<char>)>,
    b: Seq<(Seq<char>, Seq<char>)>,
    k: Seq<char>,
)
    requires
        a.len() == b.len(),
        forall|i: int| 0 <= i < a.len() ==> (#[trigger] a[i]).0 == (#[trigger] b[i]).0,
    ensures
        key_index(a, k) == key_index(b, k),
    decreases a.len(),
{
    if a.len() > 0 {
        assert(a[0].0 == b[0].0);
        assert forall|i: int|
            0 <= i < a.drop_first().len() implies (#[trigger] a.drop_first()[i]).0 == (
        #[trigger] b.drop_first()[i]).0 by {
            assert(a.drop_first()[i] == a[i + 1]);
            assert(b.drop_first()[i] == b[i + 1]);
        }
        lemma_key_index_same_keys(a.drop_first(), b.drop_first(), k);
    }
}

/// Appending an entry with a fresh key inserts it into the mapping.
proof fn lemma_set_push_view(hs: Seq<(Seq<char>, Seq<char>)>, k: Seq<char>, v: Seq<char>)
    requires
        distinct_keys(hs),
        key_index(hs, k) is None,
    ensures
        distinct_keys(hs.push((k, v))),
        headers_map_of(hs.push((k, v))) == headers_map_of(hs).insert(k, v),
{
    let hs2 = hs.push((k, v));
    lemma_key_index(hs, k);
    assert forall|a: int, b: int| 0 <= a < b < hs2.len() implies (#[trigger] hs2[a]).0 != (
    #[trigger] hs2[b]).0 by {
        if b < hs.len() {
            assert(hs2[a] == hs[a]);
            assert(hs2[b] == hs[b]);
        } else {
            assert(hs2[a] == hs[a]);
            assert(hs2[b] == (k, v));
            assert(hs[a].0 != k);
        }
    }
    lemma_headers_map_of(hs);
    lemma_headers_map_of(hs2);
    assert forall|x: Seq<char>| true implies #[trigger] headers_map_of(hs2).contains_key(x)
        == headers_map_of(hs).insert(k, v).contains_key(x) by {
        lemma_key_index(hs, x);
        lemma_key_index(hs2, x);
        match key_index(hs2, x) {
            Some(i) => {
                if i < hs.len() {
                    assert(hs2[i] == hs[i]);
                    assert(hs[i].0 == x);
                } else {
                    assert(hs2[i] == (k, v));
                }
            },
            None => {
                assert forall|i: int| 0 <= i < hs.len() implies (#[trigger] hs[i]).0 != x by {
                    assert(hs2[i] == hs[i]);
                    assert((#[trigger] hs2[i]).0 != x);
                }
                assert(hs2[hs.len() as int].0 == k);
                assert(x != k);
            },
        }
    }
    assert forall|x: Seq<char>|
        headers_map_of(hs2).contains_key(x) implies #[trigger] headers_map_of(hs2)[x]
        == headers_map_of(hs).insert(k, v)[x] by {
        lemma_key_index(hs2, x);
        let i = key_index(hs2, x)->0;
        assert(headers_map_of(hs2)[hs2[i].0] == hs2[i].1);
        if i < hs.len() {
            assert(hs2[i] == hs[i]);
            assert(x != k);
            lemma_key_index(hs, x);
            lemma_key_index_prefix(hs, hs2, x);
            assert(headers_map_of(hs)[hs[key_index(hs, x)->0].0] == hs[key_index(hs, x)->0].1);
        } else {
            assert(hs2[i] == (k, v));
            assert(x == k);
        }
    }
    assert(headers_map_of(hs2) =~= headers_map_of(hs).insert(k, v));
}

/// A key found inside the common prefix is found at the same place.
proof fn lemma_key_index_prefix(
    a: Seq<(Seq<char>, Seq<char>)>,
    b: Seq<(Seq<char>, Seq<char>)>,
    k: Seq<char>,
)
    requires
        a.len() <= b.len(),
        forall|i: int| 0 <= i < a.len() ==> #[trigger] b[i] == a[i],
        match key_index(b, k) {
            Some(i) => i < a.len(),
            None => true,
        },
        key_index(b, k) is Some,
    ensures
        key_index(a, k) == key_index(b, k),
{
    lemma_key_index(a, k);
    lemma_key_index(b, k);
    let i = key_index(b, k)->0;
    assert(a[i].0 == k);
    match key_index(a, k) {
        Some(m) => {
            if m < i {
                assert(b[m].0 != k);
                assert(a[m] == b[m]);
            } else if m > i {
                assert(a[i].0 != k);
            }
        },
        None => {
            assert(a[i].0 != k);
        },
    }
}

/// Removing the entry at `j` removes its key from the mapping.
proof fn lemma_remove_view(hs: Seq<(Seq<char>, Seq<char>)>, j: int)
    requires
        distinct_keys(hs),
        0 <= j < hs.len(),
    ensures
        distinct_keys(hs.remove(j)),
        headers_map_of(hs.remove(j)) == headers_map_of(hs).remove(hs[j].0),
{
    let k = hs[j].0;
    let hs2 = hs.remove(j);
    assert forall|a: int, b: int| 0 <= a < b < hs2.len() implies (#[trigger] hs2[a]).0 != (
    #[trigger] hs2[b]).0 by {
        let a0 = if a < j { a } else { a + 1 };
        let b0 = if b < j { b } else { b + 1 };
        assert(hs2[a] == hs[a0]);
        assert(hs2[b] == hs[b0]);
    }
    lemma_headers_map_of(hs);
    lemma_headers_map_of(hs2);
    assert forall|x: Seq<char>| true implies #[trigger] headers_map_of(hs2).contains_key(x)
        == headers_map_of(hs).remove(k).contains_key(x) by {
        lemma_key_index(hs, x);
        lemma_key_index(hs2, x);
        match key_index(hs2, x) {
            Some(i) => {
                let i0 = if i < j { i } else { i + 1 };
                assert(hs2[i] == hs[i0]);
                assert(hs[i0].0 == x);
                assert(x != k);
            },
            None => {
                if x != k {
                    match key_index(hs, x) {
                        Some(i0) => {
                            assert(hs[i0].0 == x);
                            assert(i0 != j);
                            let i = if i0 < j { i0 } else { i0 - 1 };
                            assert(hs2[i] == hs[i0]);
                            assert(hs2[i].0 == x);
                        },
                        None => {},
                    }
                }
            },
        }
    }
    assert forall|x: Seq<char>|
        headers_map_of(hs2).contains_key(x) implies #[trigger] headers_map_of(hs2)[x]
        == headers_map_of(hs).remove(k)[x] by {
        lemma_key_index(hs2, x);
        let i = key_index(hs2, x)->0;
        assert(headers_map_of(hs2)[hs2[i].0] == hs2[i].1);
        let i0 = if i < j { i } else { i + 1 };
        assert(hs2[i] == hs[i0]);
        assert(x != k);
        lemma_key_index(hs, x);
        match key_index(hs, x) {
            Some(m) => {
                assert(hs[m].0 == x);
                assert(m == i0) by {
                    if m != i0 {
                        assert(hs[m].0 != hs[i0].0);
                    }
                }
                assert(headers_map_of(hs)[hs[m].0] == hs[m].1);
            },
            None => {
                assert(hs[i0].0 != x);
            },
        }
    }
    assert(headers_map_of(hs2) =~= headers_map_of(hs).remove(k));
}

} // verus!
