use vstd::prelude::*;

use crate::bytes::{bytes_eq, copy_bytes};

verus! {

/// One namespace of the key-value store: byte keys with byte values, in the
/// order in which the store walks them.
#[derive(Debug)]
pub struct Tree {
    pub entries: Vec<(Vec<u8>, Vec<u8>)>,
}

/// A tree's records as plain sequences.
pub open spec fn records_of(entries: Seq<(Vec<u8>, Vec<u8>)>) -> Seq<(Seq<u8>, Seq<u8>)> {
    entries.map_values(|e: (Vec<u8>, Vec<u8>)| (e.0@, e.1@))
}

/// No key occurs twice.
pub open spec fn keys_unique(s: Seq<(Seq<u8>, Seq<u8>)>) -> bool {
    forall|i: int, j: int|
        0 <= i < s.len() && 0 <= j < s.len() && i != j ==> #[trigger] s[i].0 != #[trigger] s[j].0
}

/// Whether some record has key `k`.
pub open spec fn has_key(s: Seq<(Seq<u8>, Seq<u8>)>, k: Seq<u8>) -> bool {
    exists|i: int| 0 <= i < s.len() && #[trigger] s[i].0 == k
}

/// The value stored under `k`, if any.
pub open spec fn lookup(s: Seq<(Seq<u8>, Seq<u8>)>, k: Seq<u8>) -> Option<Seq<u8>> {
    if has_key(s, k) {
        Some(s[choose|i: int| 0 <= i < s.len() && #[trigger] s[i].0 == k].1)
    } else {
        None
    }
}

/// The value of the last of the first `n` records with key `k`.
pub open spec fn last_value(s: Seq<(Seq<u8>, Seq<u8>)>, k: Seq<u8>, n: int) -> Option<Seq<u8>>
    decreases n,
{
    if n <= 0 {
        None
    } else if s[n - 1].0 == k {
        Some(s[n - 1].1)
    } else {
        last_value(s, k, n - 1)
    }
}

/// In a sequence with unique keys, the record at `i` is what `lookup` finds.
pub proof fn lemma_lookup_at(s: Seq<(Seq<u8>, Seq<u8>)>, i: int)
    requires
        keys_unique(s),
        0 <= i < s.len(),
    ensures
        lookup(s, s[i].0) == Some(s[i].1),
{
    assert(has_key(s, s[i].0));
    let j = choose|j: int| 0 <= j < s.len() && #[trigger] s[j].0 == s[i].0;
    assert(i == j);
}

impl Tree {
    pub open spec fn view(&self) -> Seq<(Seq<u8>, Seq<u8>)> {
        records_of(self.entries@)
    }

    pub open spec fn wf(&self) -> bool {
        keys_unique(self@)
    }

    /// The value under `k`, in the model.
    pub open spec fn spec_get(&self, k: Seq<u8>) -> Option<Seq<u8>> {
        lookup(self@, k)
    }

    /// An empty tree.
    pub fn new() -> (t: Tree)
        ensures
            t.wf(),
            t@.len() == 0,
    {
        Tree { entries: Vec::new() }
    }

    /// Builds a tree from records in store order; where a key occurs more than
    /// once, its last value is kept.
    pub fn from_records(records: Vec<(Vec<u8>, Vec<u8>)>) -> (t: Tree)
        ensures
            t.wf(),
            forall|k: Seq<u8>|
                #[trigger] t.spec_get(k) == last_value(
                    records_of(records@),
                    k,
                    records@.len() as int,
                ),
    {
        let ghost recs = records_of(records@);
        let mut t = Tree::new();
        let mut i: usize = 0;
        while i < records.len()
            invariant
                t.wf(),
                0 <= i <= records@.len(),
                recs == records_of(records@),
                forall|k: Seq<u8>| #[trigger] t.spec_get(k) == last_value(recs, k, i as int),
            decreases records@.len() - i,
        {
            let k = copy_bytes(&records[i].0);
            let v = copy_bytes(&records[i].1);
            assert(recs[i as int] == (k@, v@));
            t.insert(k, v);
            i = i + 1;
        }
        t
    }

    /// The position of key `k`, if present.
    pub fn find(&self, k: &Vec<u8>) -> (r: Option<usize>)
        requires
            self.wf(),
        ensures
            r.is_none() <==> !has_key(self@, k@),
            r matches Some(i) ==> i < self@.len() && self@[i as int].0 == k@,
    {
        let mut i: usize = 0;
        while i < self.entries.len()
            invariant
                0 <= i <= self@.len(),
                self@.len() == self.entries@.len(),
                forall|j: int| 0 <= j < i ==> self@[j].0 != k@,
            decreases self@.len() - i,
        {
            if bytes_eq(&self.entries[i].0, k) {
                assert(self@[i as int].0 == k@);
                return Some(i);
            }
            i = i + 1;
        }
        None
    }

    /// Whether the tree holds a record under `k`.
    pub fn contains_key(&self, k: &Vec<u8>) -> (r: bool)
        requires
            self.wf(),
        ensures
            r == self.spec_get(k@).is_some(),
    {
        self.find(k).is_some()
    }

    /// The value stored under `k`.
    pub fn get(&self, k: &Vec<u8>) -> (r: Option<&Vec<u8>>)
        requires
            self.wf(),
        ensures
            r.is_some() == self.spec_get(k@).is_some(),
            r matches Some(v) ==> self.spec_get(k@) == Some(v@),
    {
        match self.find(k) {
            None => None,
            Some(i) => {
                proof {
                    lemma_lookup_at(self@, i as int);
                }
                Some(&self.entries[i].1)
            },
        }
    }

    /// Stores `v` under `k`, replacing any earlier value; a new key goes last.
    pub fn insert(&mut self, k: Vec<u8>, v: Vec<u8>)
        requires
            old(self).wf(),
        ensures
            final(self).wf(),
            final(self).spec_get(k@) == Some(v@),
            forall|k2: Seq<u8>| k2 != k@ ==> final(self).spec_get(k2) == old(self).spec_get(k2),
            forall|k2: Seq<u8>| has_key(final(self)@, k2) <==> (has_key(old(self)@, k2) || k2 == k@),
    {
        let ghost s0 = self@;
        let ghost kv = k@;
        let ghost vv = v@;
        match self.find(&k) {
            Some(i) => {
                self.entries.set(i, (k, v));
                proof {
                    let s1 = self@;
                    assert(s1 =~= s0.update(i as int, (kv, vv)));
                    assert forall|a: int, b: int|
                        0 <= a < s1.len() && 0 <= b < s1.len() && a != b implies #[trigger] s1[a].0
                        != #[trigger] s1[b].0 by {
                        assert(s0[a].0 != s0[b].0);
                    }
                    lemma_lookup_at(s1, i as int);
                    assert forall|k2: Seq<u8>| k2 != kv implies lookup(s1, k2) == lookup(s0, k2) by {
                        if has_key(s0, k2) {
                            let j = choose|j: int| 0 <= j < s0.len() && #[trigger] s0[j].0 == k2;
                            assert(s1[j].0 == k2);
                            lemma_lookup_at(s0, j);
                            lemma_lookup_at(s1, j);
                        }
                        if has_key(s1, k2) {
                            let j = choose|j: int| 0 <= j < s1.len() && #[trigger] s1[j].0 == k2;
                            assert(s0[j].0 == k2);
                        }
                    }
                    assert forall|k2: Seq<u8>| has_key(s1, k2) <==> (has_key(s0, k2) || k2 == kv) by {
                        if has_key(s0, k2) {
                            let j = choose|j: int| 0 <= j < s0.len() && #[trigger] s0[j].0 == k2;
                            assert(s1[j].0 == k2);
                        }
                        if has_key(s1, k2) {
                            let j = choose|j: int| 0 <= j < s1.len() && #[trigger] s1[j].0 == k2;
                            if j != i {
                                assert(s0[j].0 == k2);
                            }
                        }
                    }
                }
            },
            None => {
                self.entries.push((k, v));
                proof {
                    let s1 = self@;
                    assert(s1 =~= s0.push((kv, vv)));
                    assert forall|a: int, b: int|
                        0 <= a < s1.len() && 0 <= b < s1.len() && a != b implies #[trigger] s1[a].0
                        != #[trigger] s1[b].0 by {
                        if a < s0.len() && b < s0.len() {
                            assert(s0[a].0 != s0[b].0);
                        } else if a < s0.len() {
                            assert(s0[a].0 == s1[a].0);
                        } else {
                            assert(s0[b].0 == s1[b].0);
                        }
                    }
                    lemma_lookup_at(s1, s0.len() as int);
                    assert forall|k2: Seq<u8>| k2 != kv implies lookup(s1, k2) == lookup(s0, k2) by {
                        if has_key(s0, k2) {
                            let j = choose|j: int| 0 <= j < s0.len() && #[trigger] s0[j].0 == k2;
                            assert(s1[j].0 == k2);
                            lemma_lookup_at(s0, j);
                            lemma_lookup_at(s1, j);
                        }
                        if has_key(s1, k2) {
                            let j = choose|j: int| 0 <= j < s1.len() && #[trigger] s1[j].0 == k2;
                            assert(s0[j].0 == k2);
                        }
                    }
                    assert forall|k2: Seq<u8>| has_key(s1, k2) <==> (has_key(s0, k2) || k2 == kv) by {
                        if has_key(s0, k2) {
                            let j = choose|j: int| 0 <= j < s0.len() && #[trigger] s0[j].0 == k2;
                            assert(s1[j].0 == k2);
                        }
                        if k2 == kv {
                            assert(s1[s0.len() as int].0 == k2);
                        }
                        if has_key(s1, k2) {
                            let j = choose|j: int| 0 <= j < s1.len() && #[trigger] s1[j].0 == k2;
                            if j < s0.len() {
                                assert(s0[j].0 == k2);
                            }
                        }
                    }
                }
            },
        }
    }
}

} // verus!
