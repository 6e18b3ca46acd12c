//! A string-to-string map kept sorted by key bytes, the shape of a REST
//! request's query string (and of any JSON object the server writes, whose
//! members come out in key order).

use vstd::prelude::*;
use crate::bytes::{utf8, bytes_lt, Rank, rank_bytes, lemma_bytes_lt_irreflexive,
    lemma_bytes_lt_transitive};

verus! {

/// Keys strictly increasing in byte order.
pub open spec fn sorted_entries(s: Seq<(Seq<char>, Seq<char>)>) -> bool {
    forall|i: int, j: int| 0 <= i < j < s.len() ==> bytes_lt(utf8(#[trigger] s[i].0), utf8(#[trigger] s[j].0))
}

/// The value stored under `k`, if any.
pub open spec fn lookup(s: Seq<(Seq<char>, Seq<char>)>, k: Seq<char>) -> Option<Seq<char>>
    decreases s.len(),
{
    if s.len() == 0 {
        None
    } else if s.last().0 == k {
        Some(s.last().1)
    } else {
        lookup(s.drop_last(), k)
    }
}

/// A sorted listing carries each key once.
pub proof fn lemma_sorted_distinct(s: Seq<(Seq<char>, Seq<char>)>, i: int, j: int)
    requires
        sorted_entries(s),
        0 <= i < s.len(),
        0 <= j < s.len(),
        i != j,
    ensures
        s[i].0 != s[j].0,
{
    if i < j {
        assert(bytes_lt(utf8(s[i].0), utf8(s[j].0)));
        if s[i].0 == s[j].0 {
            lemma_bytes_lt_irreflexive(utf8(s[i].0));
        }
    } else {
        assert(bytes_lt(utf8(s[j].0), utf8(s[i].0)));
        if s[i].0 == s[j].0 {
            lemma_bytes_lt_irreflexive(utf8(s[i].0));
        }
    }
}

/// In a sorted listing, the entry at `i` is what `lookup` finds for its key.
pub proof fn lemma_lookup_at(s: Seq<(Seq<char>, Seq<char>)>, i: int)
    requires
        sorted_entries(s),
        0 <= i < s.len(),
    ensures
        lookup(s, s[i].0) == Some(s[i].1),
    decreases s.len(),
{
    if i < s.len() - 1 {
        lemma_sorted_distinct(s, i, s.len() - 1);
        let t = s.drop_last();
        assert(sorted_entries(t));
        assert(t[i] == s[i]);
        lemma_lookup_at(t, i);
    }
}

/// A key that no entry carries is not found.
pub proof fn lemma_lookup_absent(s: Seq<(Seq<char>, Seq<char>)>, k: Seq<char>)
    requires
        forall|i: int| 0 <= i < s.len() ==> (#[trigger] s[i]).0 != k,
    ensures
        lookup(s, k) is None,
    decreases s.len(),
{
    if s.len() > 0 {
        let t = s.drop_last();
        assert forall|i: int| 0 <= i < t.len() implies (#[trigger] t[i]).0 != k by {
            assert(t[i] == s[i]);
        }
        assert(s[s.len() - 1] == s.last());
        lemma_lookup_absent(t, k);
    }
}

/// A key is found exactly when some entry carries it.
pub proof fn lemma_lookup_some(s: Seq<(Seq<char>, Seq<char>)>, k: Seq<char>)
    requires
        sorted_entries(s),
    ensures
        lookup(s, k) is Some <==> exists|i: int| 0 <= i < s.len() && (#[trigger] s[i]).0 == k,
{
    if exists|i: int| 0 <= i < s.len() && (#[trigger] s[i]).0 == k {
        let i = choose|i: int| 0 <= i < s.len() && (#[trigger] s[i]).0 == k;
        lemma_lookup_at(s, i);
    } else {
        lemma_lookup_absent(s, k);
    }
}

/// A sorted string-keyed map; the view lists its entries in key order.
pub struct Query {
    entries: Vec<(String, String)>,
}

impl View for Query {
    type V = Seq<(Seq<char>, Seq<char>)>;

    closed spec fn view(&self) -> Seq<(Seq<char>, Seq<char>)> {
        Seq::new(self.entries@.len(), |i: int| (self.entries@[i].0@, self.entries@[i].1@))
    }
}

impl Query {
    /// The well-formedness of the map: keys in strictly increasing order.
    pub open spec fn wf(&self) -> bool {
        sorted_entries(self@)
    }

    /// An empty map.
    pub fn new() -> (q: Self)
        ensures
            q@ == Seq::<(Seq<char>, Seq<char>)>::empty(),
            q.wf(),
    {
        let q = Query { entries: Vec::new() };
        assert(q@ =~= Seq::<(Seq<char>, Seq<char>)>::empty());
        q
    }

    /// Number of entries.
    pub fn len(&self) -> (n: usize)
        ensures
            n == self@.len(),
    {
        self.entries.len()
    }

    /// The key of the `i`-th entry in key order.
    pub fn key_at(&self, i: usize) -> (k: &String)
        requires
            i < self@.len(),
        ensures
            k@ == self@[i as int].0,
    {
        &self.entries[i].0
    }

    /// The value of the `i`-th entry in key order.
    pub fn value_at(&self, i: usize) -> (v: &String)
        requires
            i < self@.len(),
        ensures
            v@ == self@[i as int].1,
    {
        &self.entries[i].1
    }

    /// Position of `key`, or the position where it would be inserted.
    fn seek(&self, key: &str) -> (r: (usize, bool))
        requires
            self.wf(),
        ensures
            r.0 <= self@.len(),
            forall|j: int| 0 <= j < r.0 ==> bytes_lt(utf8(#[trigger] self@[j].0), utf8(key@)),
            r.1 ==> r.0 < self@.len() && self@[r.0 as int].0 == key@,
            !r.1 && r.0 < self@.len() ==> bytes_lt(utf8(key@), utf8(self@[r.0 as int].0)),
    {
        let kb = key.as_bytes();
        let mut i: usize = 0;
        while i < self.entries.len()
            invariant
                i <= self@.len(),
                self@.len() == self.entries@.len(),
                kb@ == utf8(key@),
                forall|j: int| 0 <= j < i ==> bytes_lt(utf8(#[trigger] self@[j].0), utf8(key@)),
            decreases self.entries.len() - i,
        {
            let eb = self.entries[i].0.as_str().as_bytes();
            assert(eb@ == utf8(self@[i as int].0));
            match rank_bytes(eb, kb) {
                Rank::Before => {},
                Rank::Same => {
                    proof {
                        crate::bytes::lemma_utf8_injective(self@[i as int].0, key@);
                    }
                    return (i, true);
                },
                Rank::After => {
                    return (i, false);
                },
            }
            i = i + 1;
        }
        (i, false)
    }

    /// The value stored under `key`.
    pub fn get(&self, key: &str) -> (r: Option<&String>)
        requires
            self.wf(),
        ensures
            match r {
                Some(v) => lookup(self@, key@) == Some(v@),
                None => lookup(self@, key@) is None,
            },
    {
        let (i, found) = self.seek(key);
        if found {
            proof {
                lemma_lookup_at(self@, i as int);
            }
            Some(&self.entries[i].1)
        } else {
            proof {
                assert forall|j: int| 0 <= j < self@.len() implies (#[trigger] self@[j]).0 != key@ by {
                    if j < i {
                        assert(bytes_lt(utf8(self@[j].0), utf8(key@)));
                        if self@[j].0 == key@ {
                            lemma_bytes_lt_irreflexive(utf8(key@));
                        }
                    } else if j >= i && i < self@.len() {
                        assert(bytes_lt(utf8(key@), utf8(self@[i as int].0)));
                        if j > i {
                            assert(bytes_lt(utf8(self@[i as int].0), utf8(self@[j].0)));
                            lemma_bytes_lt_transitive(utf8(key@), utf8(self@[i as int].0), utf8(self@[j].0));
                        }
                        if self@[j].0 == key@ {
                            lemma_bytes_lt_irreflexive(utf8(key@));
                        }
                    }
                }
                lemma_lookup_absent(self@, key@);
            }
            None
        }
    }

    /// Stores `value` under `key`, handing back what was stored there before.
    pub fn insert(&mut self, key: String, value: String) -> (old_value: Option<String>)
        requires
            old(self).wf(),
        ensures
            final(self).wf(),
            lookup(final(self)@, key@) == Some(value@),
            forall|k: Seq<char>| k != key@ ==> #[trigger] lookup(final(self)@, k) == lookup(old(self)@, k),
            match old_value {
                Some(v) => lookup(old(self)@, key@) == Some(v@),
                None => lookup(old(self)@, key@) is None,
            },
    {
        let ghost before = self@;
        let (i, found) = self.seek(key.as_str());
        if found {
            let ghost kv = key@;
            let ghost vv = value@;
            let removed = self.entries.remove(i);
            self.entries.insert(i, (key, value));
            assert(self@ =~= before.update(i as int, (kv, vv)));
            proof {
                assert(sorted_entries(self@)) by {
                    assert forall|a: int, b: int| 0 <= a < b < self@.len() implies bytes_lt(
                        utf8(#[trigger] self@[a].0),
                        utf8(#[trigger] self@[b].0),
                    ) by {
                        assert(self@[a].0 == before[a].0);
                        assert(self@[b].0 == before[b].0);
                    }
                }
                lemma_lookup_at(before, i as int);
                lemma_lookup_at(self@, i as int);
                assert forall|k: Seq<char>| k != kv implies #[trigger] lookup(self@, k) == lookup(before, k) by {
                    if exists|j: int| 0 <= j < before.len() && (#[trigger] before[j]).0 == k {
                        let j = choose|j: int| 0 <= j < before.len() && (#[trigger] before[j]).0 == k;
                        lemma_lookup_at(before, j);
                        assert(self@[j] == before[j]);
                        lemma_lookup_at(self@, j);
                    } else {
                        assert forall|j: int| 0 <= j < self@.len() implies (#[trigger] self@[j]).0 != k by {
                            if j != i {
                                assert(self@[j] == before[j]);
                            }
                        }
                        lemma_lookup_absent(self@, k);
                        lemma_lookup_absent(before, k);
                    }
                }
            }
            Some(removed.1)
        } else {
            let ghost kv = key@;
            let ghost vv = value@;
            self.entries.insert(i, (key, value));
            assert(self@ =~= before.insert(i as int, (kv, vv)));
            proof {
                assert(sorted_entries(self@)) by {
                    assert forall|a: int, b: int| 0 <= a < b < self@.len() implies bytes_lt(
                        utf8(#[trigger] self@[a].0),
                        utf8(#[trigger] self@[b].0),
                    ) by {
                        if b < i {
                            assert(self@[a] == before[a] && self@[b] == before[b]);
                        } else if b == i {
                            assert(self@[a] == before[a]);
                        } else if a == i {
                            assert(self@[b] == before[b - 1]);
                            if b - 1 > i {
                                assert(bytes_lt(utf8(before[i as int].0), utf8(before[b - 1].0)));
                                lemma_bytes_lt_transitive(utf8(kv), utf8(before[i as int].0), utf8(before[b - 1].0));
                            }
                        } else if a < i {
                            assert(self@[a] == before[a] && self@[b] == before[b - 1]);
                        } else {
                            assert(self@[a] == before[a - 1] && self@[b] == before[b - 1]);
                        }
                    }
                }
                lemma_lookup_at(self@, i as int);
                assert forall|j: int| 0 <= j < before.len() implies (#[trigger] before[j]).0 != kv by {
                    if j < i {
                        assert(bytes_lt(utf8(before[j].0), utf8(kv)));
                        if before[j].0 == kv {
                            lemma_bytes_lt_irreflexive(utf8(kv));
                        }
                    } else {
                        assert(bytes_lt(utf8(kv), utf8(before[i as int].0)));
                        if j > i {
                            lemma_bytes_lt_transitive(utf8(kv), utf8(before[i as int].0), utf8(before[j].0));
                        }
                        if before[j].0 == kv {
                            lemma_bytes_lt_irreflexive(utf8(kv));
                        }
                    }
                }
                lemma_lookup_absent(before, kv);
                assert forall|k: Seq<char>| k != kv implies #[trigger] lookup(self@, k) == lookup(before, k) by {
                    if exists|j: int| 0 <= j < before.len() && (#[trigger] before[j]).0 == k {
                        let j = choose|j: int| 0 <= j < before.len() && (#[trigger] before[j]).0 == k;
                        lemma_lookup_at(before, j);
                        let t = if j < i { j } else { j + 1 };
                        assert(self@[t] == before[j]);
                        lemma_lookup_at(self@, t);
                    } else {
                        assert forall|j: int| 0 <= j < self@.len() implies (#[trigger] self@[j]).0 != k by {
                            if j < i {
                                assert(self@[j] == before[j]);
                            } else if j > i {
                                assert(self@[j] == before[j - 1]);
                            }
                        }
                        lemma_lookup_absent(self@, k);
                        lemma_lookup_absent(before, k);
                    }
                }
            }
            None
        }
    }

    /// Removes the entry stored under `key`, handing back its value.
    pub fn remove(&mut self, key: &str) -> (old_value: Option<String>)
        requires
            old(self).wf(),
        ensures
            final(self).wf(),
            lookup(final(self)@, key@) is None,
            forall|k: Seq<char>| k != key@ ==> #[trigger] lookup(final(self)@, k) == lookup(old(self)@, k),
            match old_value {
                Some(v) => lookup(old(self)@, key@) == Some(v@),
                None => lookup(old(self)@, key@) is None,
            },
    {
        let ghost before = self@;
        let (i, found) = self.seek(key);
        if !found {
            proof {
                assert forall|j: int| 0 <= j < before.len() implies (#[trigger] before[j]).0 != key@ by {
                    if j < i {
                        assert(bytes_lt(utf8(before[j].0), utf8(key@)));
                        if before[j].0 == key@ {
                            lemma_bytes_lt_irreflexive(utf8(key@));
                        }
                    } else {
                        assert(bytes_lt(utf8(key@), utf8(before[i as int].0)));
                        if j > i {
                            lemma_bytes_lt_transitive(utf8(key@), utf8(before[i as int].0), utf8(before[j].0));
                        }
                        if before[j].0 == key@ {
                            lemma_bytes_lt_irreflexive(utf8(key@));
                        }
                    }
                }
                lemma_lookup_absent(before, key@);
            }
            return None;
        }
        let removed = self.entries.remove(i);
        assert(self@ =~= before.remove(i as int));
        proof {
            lemma_lookup_at(before, i as int);
            assert(sorted_entries(self@)) by {
                assert forall|a: int, b: int| 0 <= a < b < self@.len() implies bytes_lt(
                    utf8(#[trigger] self@[a].0),
                    utf8(#[trigger] self@[b].0),
                ) by {
                    let a0 = if a < i { a } else { a + 1 };
                    let b0 = if b < i { b } else { b + 1 };
                    assert(self@[a] == before[a0] && self@[b] == before[b0]);
                }
            }
            assert forall|j: int| 0 <= j < self@.len() implies (#[trigger] self@[j]).0 != key@ by {
                let j0 = if j < i { j } else { j + 1 };
                assert(self@[j] == before[j0]);
                lemma_sorted_distinct(before, j0, i as int);
            }
            lemma_lookup_absent(self@, key@);
            assert forall|k: Seq<char>| k != key@ implies #[trigger] lookup(self@, k) == lookup(before, k) by {
                if exists|j: int| 0 <= j < before.len() && (#[trigger] before[j]).0 == k {
                    let j = choose|j: int| 0 <= j < before.len() && (#[trigger] before[j]).0 == k;
                    lemma_lookup_at(before, j);
                    let t = if j < i { j } else { j - 1 };
                    assert(self@[t] == before[j]);
                    lemma_lookup_at(self@, t);
                } else {
                    assert forall|j: int| 0 <= j < self@.len() implies (#[trigger] self@[j]).0 != k by {
                        let j0 = if j < i { j } else { j + 1 };
                        assert(self@[j] == before[j0]);
                    }
                    lemma_lookup_absent(self@, k);
                    lemma_lookup_absent(before, k);
                }
            }
        }
        Some(removed.1)
    }
}

} // verus!
