//! The storage overlay: a diff layered above the backing store.
//!
//! A key absent from the diff is read from the backing store; a key mapped
//! to `Some` bytes is an overlay write; a key mapped to `None` is an overlay
//! erasure. The diff also answers ordered "next key" queries relative to a
//! candidate supplied by the backing store.

use vstd::prelude::*;
use crate::bytes_order::{lex_lt, lex_le, lex_cmp, LexOrd, copy_bytes, lemma_lex_trichotomy,
    lemma_lex_lt_transitive, lemma_lex_le_lt_transitive, lemma_lex_lt_le_transitive};

verus! {

/// The view of one stored value: written bytes, or an erasure.
pub open spec fn opt_view(o: Option<Vec<u8>>) -> Option<Seq<u8>> {
    match o {
        Some(v) => Some(v@),
        None => None,
    }
}

/// The mapping a sequence of diff entries denotes; later entries win.
pub open spec fn map_of(s: Seq<(Vec<u8>, Option<Vec<u8>>)>) -> Map<Seq<u8>, Option<Seq<u8>>>
    decreases s.len(),
{
    if s.len() == 0 {
        Map::empty()
    } else {
        map_of(s.drop_last()).insert(s.last().0@, opt_view(s.last().1))
    }
}

/// No two entries carry the same key.
pub open spec fn keys_distinct(s: Seq<(Vec<u8>, Option<Vec<u8>>)>) -> bool {
    forall|i: int, j: int| 0 <= i < j < s.len() ==> s[i].0@ != s[j].0@
}

/// A diff of pending writes and erasures over the backing store.
pub struct TrieDiff {
    entries: Vec<(Vec<u8>, Option<Vec<u8>>)>,
}

impl View for TrieDiff {
    type V = Map<Seq<u8>, Option<Seq<u8>>>;

    closed spec fn view(&self) -> Map<Seq<u8>, Option<Seq<u8>>> {
        map_of(self.entries@)
    }
}

/// Outcome of an ordered next-key search through the overlay.
pub enum StorageNextKey {
    /// The next key of the overlaid storage is known: this one (or none at all).
    Found(Option<Vec<u8>>),
    /// The backing store's candidate is erased by the overlay; the search
    /// must restart with the backing store's next key after this one.
    NextOf(Vec<u8>),
}

/// The view of a next-key outcome.
pub ghost enum NextKeyOutcome {
    Found(Option<Seq<u8>>),
    NextOf(Seq<u8>),
}

/// The view of a [`StorageNextKey`].
pub open spec fn nk_view(r: StorageNextKey) -> NextKeyOutcome {
    match r {
        StorageNextKey::Found(k) => NextKeyOutcome::Found(
            match k {
                Some(k) => Some(k@),
                None => None,
            },
        ),
        StorageNextKey::NextOf(k) => NextKeyOutcome::NextOf(k@),
    }
}

/// `k` satisfies the search bound relative to the requested key.
pub open spec fn bound_ok(req: Seq<u8>, k: Seq<u8>, or_equal: bool) -> bool {
    if or_equal {
        lex_le(req, k)
    } else {
        lex_lt(req, k)
    }
}

/// `k` is an overlay write in range of the search.
pub open spec fn diff_candidate(
    m: Map<Seq<u8>, Option<Seq<u8>>>,
    req: Seq<u8>,
    or_equal: bool,
    k: Seq<u8>,
) -> bool {
    m.contains_key(k) && m[k] is Some && bound_ok(req, k, or_equal)
}

/// What a correct next-key search may report.
pub open spec fn next_key_result_ok(
    m: Map<Seq<u8>, Option<Seq<u8>>>,
    req: Seq<u8>,
    backing: Option<Seq<u8>>,
    or_equal: bool,
    r: NextKeyOutcome,
) -> bool {
    match r {
        NextKeyOutcome::Found(Some(k)) => {
            &&& bound_ok(req, k, or_equal)
            &&& (diff_candidate(m, req, or_equal, k) || backing == Some(k))
            &&& (m.contains_key(k) ==> m[k] is Some)
            &&& forall|j: Seq<u8>| diff_candidate(m, req, or_equal, j) ==> lex_le(k, j)
            &&& (backing matches Some(b) ==> lex_le(k, b))
        },
        NextKeyOutcome::Found(None) => {
            &&& backing is None
            &&& forall|j: Seq<u8>| !diff_candidate(m, req, or_equal, j)
        },
        NextKeyOutcome::NextOf(b) => {
            &&& backing == Some(b)
            &&& m.contains_key(b) && m[b] is None
            &&& forall|j: Seq<u8>| diff_candidate(m, req, or_equal, j) ==> lex_lt(b, j)
        },
    }
}

/// A key occurs in the denoted map exactly when some entry carries it.
proof fn lemma_map_of_contains(s: Seq<(Vec<u8>, Option<Vec<u8>>)>, k: Seq<u8>)
    ensures
        map_of(s).contains_key(k) <==> exists|i: int| 0 <= i < s.len() && s[i].0@ == k,
    decreases s.len(),
{
    if s.len() > 0 {
        lemma_map_of_contains(s.drop_last(), k);
        if map_of(s).contains_key(k) {
            if s.last().0@ == k {
                assert(s[s.len() - 1].0@ == k);
            } else {
                let i = choose|i: int| 0 <= i < s.drop_last().len() && s.drop_last()[i].0@ == k;
                assert(s[i].0@ == k);
            }
        }
        if exists|i: int| 0 <= i < s.len() && s[i].0@ == k {
            let i = choose|i: int| 0 <= i < s.len() && s[i].0@ == k;
            if i < s.len() - 1 {
                assert(s.drop_last()[i].0@ == k);
            }
        }
    }
}

/// With distinct keys, the entry carrying `k` gives the denoted value.
proof fn lemma_map_of_at(s: Seq<(Vec<u8>, Option<Vec<u8>>)>, i: int)
    requires
        keys_distinct(s),
        0 <= i < s.len(),
    ensures
        map_of(s).contains_key(s[i].0@),
        map_of(s)[s[i].0@] == opt_view(s[i].1),
    decreases s.len(),
{
    if i == s.len() - 1 {
    } else {
        assert(keys_distinct(s.drop_last()));
        lemma_map_of_at(s.drop_last(), i);
        assert(s.drop_last()[i] == s[i]);
        assert(s.last().0@ != s[i].0@);
    }
}

/// Extending the entries by one extends the denoted map by one.
proof fn lemma_map_of_sub_push(s: Seq<(Vec<u8>, Option<Vec<u8>>)>, i: int)
    requires
        0 <= i < s.len(),
    ensures
        map_of(s.subrange(0, i + 1)) == map_of(s.subrange(0, i)).insert(
            s[i].0@,
            opt_view(s[i].1),
        ),
{
    let t = s.subrange(0, i + 1);
    assert(t.drop_last() =~= s.subrange(0, i));
    assert(t.last() == s[i]);
}

/// Removing the entry that carries `k` removes `k` from the denoted map.
proof fn lemma_map_of_remove(s: Seq<(Vec<u8>, Option<Vec<u8>>)>, j: int)
    requires
        keys_distinct(s),
        0 <= j < s.len(),
    ensures
        map_of(s.remove(j)) == map_of(s).remove(s[j].0@),
        keys_distinct(s.remove(j)),
    decreases s.len(),
{
    let k = s[j].0@;
    assert(keys_distinct(s.remove(j))) by {
        assert(forall|a: int, b: int| 0 <= a < b < s.remove(j).len()
            ==> #[trigger] s.remove(j)[a].0@ != #[trigger] s.remove(j)[b].0@) by {
            assert(forall|a: int| 0 <= a < j ==> #[trigger] s.remove(j)[a] == s[a]);
            assert(forall|a: int| j <= a < s.len() - 1 ==> #[trigger] s.remove(j)[a] == s[a + 1]);
        }
    }
    if j == s.len() - 1 {
        assert(s.remove(j) =~= s.drop_last());
        assert(map_of(s).remove(k) =~= map_of(s.drop_last())) by {
            lemma_map_of_contains(s.drop_last(), k);
            assert(forall|a: int| 0 <= a < s.drop_last().len() ==> s.drop_last()[a] == s[a]);
            assert(!map_of(s.drop_last()).contains_key(k));
        }
    } else {
        assert(keys_distinct(s.drop_last()));
        lemma_map_of_remove(s.drop_last(), j);
        assert(s.remove(j).drop_last() =~= s.drop_last().remove(j));
        assert(s.remove(j).last() == s.last());
        assert(map_of(s.remove(j)) == map_of(s.drop_last().remove(j)).insert(
            s.last().0@,
            opt_view(s.last().1),
        ));
        assert(map_of(s).remove(k) =~= map_of(s.drop_last()).remove(k).insert(
            s.last().0@,
            opt_view(s.last().1),
        )) by {
            assert(s.last().0@ != k);
        }
    }
}

impl TrieDiff {
    /// The diff is well formed: no key occurs twice.
    pub closed spec fn wf(&self) -> bool {
        keys_distinct(self.entries@)
    }

    /// An empty diff.
    pub fn new() -> (r: TrieDiff)
        ensures
            r.wf(),
            r@ == Map::<Seq<u8>, Option<Seq<u8>>>::empty(),
    {
        TrieDiff { entries: Vec::new() }
    }

    /// Whether the diff holds no write and no erasure.
    pub fn is_empty(&self) -> (r: bool)
        requires
            self.wf(),
        ensures
            r <==> self@ == Map::<Seq<u8>, Option<Seq<u8>>>::empty(),
    {
        let r = self.entries.is_empty();
        proof {
            if self.entries@.len() == 0 {
                assert(self@ =~= Map::<Seq<u8>, Option<Seq<u8>>>::empty());
            } else {
                lemma_map_of_at(self.entries@, 0);
                assert(self@.contains_key(self.entries@[0].0@));
                assert(!Map::<Seq<u8>, Option<Seq<u8>>>::empty().contains_key(
                    self.entries@[0].0@,
                ));
            }
        }
        r
    }

    /// Finds the index of the entry carrying `key`, if any.
    fn find(&self, key: &Vec<u8>) -> (r: Option<usize>)
        ensures
            match r {
                Some(i) => i < self.entries@.len() && self.entries@[i as int].0@ == key@,
                None => forall|i: int| 0 <= i < self.entries@.len()
                    ==> self.entries@[i].0@ != key@,
            },
    {
        let mut i: usize = 0;
        while i < self.entries.len()
            invariant
                0 <= i <= self.entries@.len(),
                forall|j: int| 0 <= j < i ==> self.entries@[j].0@ != key@,
            decreases self.entries@.len() - i,
        {
            let eq = matches!(lex_cmp(&self.entries[i].0, key), LexOrd::Equal);
            if eq {
                return Some(i);
            }
            i = i + 1;
        }
        None
    }

    /// Looks `key` up in the diff.
    ///
    /// `None` means the diff does not mention the key; `Some(None)` an
    /// erasure; `Some(Some(v))` an overlay write of `v`.
    pub fn diff_get(&self, key: &Vec<u8>) -> (r: Option<Option<Vec<u8>>>)
        requires
            self.wf(),
        ensures
            match r {
                Some(v) => self@.contains_key(key@) && opt_view(v) == self@[key@],
                None => !self@.contains_key(key@),
            },
    {
        let found = self.find(key);
        match found {
            Some(i) => {
                proof {
                    lemma_map_of_at(self.entries@, i as int);
                }
                let v = match &self.entries[i].1 {
                    Some(v) => Some(copy_bytes(v)),
                    None => None,
                };
                Some(v)
            },
            None => {
                proof {
                    lemma_map_of_contains(self.entries@, key@);
                }
                None
            },
        }
    }

    /// Stores `value` (a write or an erasure) under `key`.
    fn insert_entry(&mut self, key: Vec<u8>, value: Option<Vec<u8>>)
        requires
            old(self).wf(),
        ensures
            final(self).wf(),
            final(self)@ == old(self)@.insert(key@, opt_view(value)),
    {
        let found = self.find(&key);
        let ghost s0 = self.entries@;
        if let Some(i) = found {
            let _ = self.entries.remove(i);
            proof {
                lemma_map_of_remove(s0, i as int);
            }
        }
        let ghost s1 = self.entries@;
        proof {
            lemma_map_of_contains(s1, key@);
            if found is Some {
                let i = found->Some_0;
                assert(forall|a: int| 0 <= a < i ==> #[trigger] s1[a] == s0[a]);
                assert(forall|a: int| i <= a < s1.len() ==> #[trigger] s1[a] == s0[a + 1]);
                assert(forall|a: int| 0 <= a < s1.len() ==> s1[a].0@ != key@);
            }
            assert(!map_of(s1).contains_key(key@));
        }
        self.entries.push((key, value));
        proof {
            let s2 = self.entries@;
            assert(s2.drop_last() =~= s1);
            assert(keys_distinct(s2)) by {
                assert(forall|a: int| 0 <= a < s1.len() ==> #[trigger] s2[a] == s1[a]);
            }
            if found is Some {
                let i = found->Some_0;
                assert(map_of(s2) == map_of(s1).insert(key@, opt_view(value)));
                assert(map_of(s1) == map_of(s0).remove(key@));
                assert(map_of(s0).remove(key@).insert(key@, opt_view(value)) =~= map_of(
                    s0,
                ).insert(key@, opt_view(value)));
            }
        }
    }

    /// Records the overlay write `key := value`.
    pub fn diff_insert(&mut self, key: Vec<u8>, value: Vec<u8>)
        requires
            old(self).wf(),
        ensures
            final(self).wf(),
            final(self)@ == old(self)@.insert(key@, Some(value@)),
    {
        self.insert_entry(key, Some(value));
    }

    /// Records the overlay erasure of `key`.
    pub fn diff_insert_erase(&mut self, key: Vec<u8>)
        requires
            old(self).wf(),
        ensures
            final(self).wf(),
            final(self)@ == old(self)@.insert(key@, None),
    {
        self.insert_entry(key, None);
    }

    /// A value-copy of the whole diff.
    pub fn snapshot(&self) -> (r: TrieDiff)
        requires
            self.wf(),
        ensures
            r.wf(),
            r@ == self@,
    {
        let mut rebuilt: Vec<(Vec<u8>, Option<Vec<u8>>)> = Vec::new();
        let mut i: usize = 0;
        while i < self.entries.len()
            invariant
                self.wf(),
                0 <= i <= self.entries@.len(),
                rebuilt@.len() == i,
                forall|j: int| 0 <= j < i ==> #[trigger] rebuilt@[j].0@ == self.entries@[j].0@,
                map_of(rebuilt@) == map_of(self.entries@.subrange(0, i as int)),
            decreases self.entries@.len() - i,
        {
            let k = copy_bytes(&self.entries[i].0);
            let v = match &self.entries[i].1 {
                Some(v) => Some(copy_bytes(v)),
                None => None,
            };
            let ghost r0 = rebuilt@;
            proof {
                lemma_map_of_sub_push(self.entries@, i as int);
            }
            rebuilt.push((k, v));
            proof {
                assert(rebuilt@.drop_last() =~= r0);
                assert(opt_view(rebuilt@.last().1) == opt_view(self.entries@[i as int].1));
            }
            i = i + 1;
        }
        proof {
            assert(self.entries@.subrange(0, self.entries@.len() as int) =~= self.entries@);
            assert(keys_distinct(rebuilt@));
        }
        TrieDiff { entries: rebuilt }
    }

    /// Answers an ordered next-key query through the overlay.
    ///
    /// `backing` is the backing store's own next key after `requested`
    /// (under the same bound). The overlay may supersede it with an earlier
    /// write, confirm it, or report that it is erased and the backing store
    /// must be asked for the key after it.
    pub fn storage_next_key(
        &self,
        requested: &Vec<u8>,
        backing: Option<&Vec<u8>>,
        or_equal: bool,
    ) -> (r: StorageNextKey)
        requires
            self.wf(),
            backing matches Some(b) ==> bound_ok(requested@, b@, or_equal),
        ensures
            next_key_result_ok(
                self@,
                requested@,
                match backing {
                    Some(b) => Some(b@),
                    None => None,
                },
                or_equal,
                nk_view(r),
            ),
    {
        let ghost m = self@;
        let ghost req = requested@;
        // Find the least overlay write satisfying the bound.
        let mut best: Option<usize> = None;
        let mut i: usize = 0;
        while i < self.entries.len()
            invariant
                self.wf(),
                m == self@,
                req == requested@,
                0 <= i <= self.entries@.len(),
                match best {
                    Some(j) => {
                        &&& j < i
                        &&& self.entries@[j as int].1 is Some
                        &&& bound_ok(req, self.entries@[j as int].0@, or_equal)
                        &&& forall|l: int| 0 <= l < i && self.entries@[l].1 is Some
                            && bound_ok(req, self.entries@[l].0@, or_equal)
                            ==> lex_le(self.entries@[j as int].0@, #[trigger] self.entries@[l].0@)
                    },
                    None => forall|l: int| 0 <= l < i
                        ==> !(self.entries@[l].1 is Some && bound_ok(
                            req,
                            #[trigger] self.entries@[l].0@,
                            or_equal,
                        )),
                },
            decreases self.entries@.len() - i,
        {
            let is_write = self.entries[i].1.is_some();
            if is_write {
                let cmp = lex_cmp(requested, &self.entries[i].0);
                let in_bound = match cmp {
                    LexOrd::Less => true,
                    LexOrd::Equal => or_equal,
                    LexOrd::Greater => false,
                };
                if in_bound {
                    match best {
                        None => {
                            best = Some(i);
                        },
                        Some(j) => {
                            let closer = matches!(
                                lex_cmp(&self.entries[i].0, &self.entries[j].0),
                                LexOrd::Less
                            );
                            if closer {
                                proof {
                                    let ki = self.entries@[i as int].0@;
                                    let kj = self.entries@[j as int].0@;
                                    assert forall|l: int|
                                        0 <= l < i + 1 && self.entries@[l].1 is Some && bound_ok(
                                            req,
                                            self.entries@[l].0@,
                                            or_equal,
                                        ) implies lex_le(ki, #[trigger] self.entries@[l].0@) by {
                                        if l < i {
                                            lemma_lex_lt_le_transitive(
                                                ki,
                                                kj,
                                                self.entries@[l].0@,
                                            );
                                        } else {
                                            lemma_lex_trichotomy(ki, self.entries@[l].0@);
                                        }
                                    }
                                }
                                best = Some(i);
                            } else {
                                proof {
                                    let ki = self.entries@[i as int].0@;
                                    let kj = self.entries@[j as int].0@;
                                    lemma_lex_trichotomy(ki, kj);
                                    assert(lex_le(kj, ki));
                                }
                            }
                        },
                    }
                }
            }
            proof {
                if best is None {
                    assert(forall|l: int| 0 <= l < i + 1
                        ==> !(self.entries@[l].1 is Some && bound_ok(
                            req,
                            #[trigger] self.entries@[l].0@,
                            or_equal,
                        )));
                }
            }
            i = i + 1;
        }
        proof {
            // Connect entry-level candidates with map-level candidates.
            assert forall|k: Seq<u8>| diff_candidate(m, req, or_equal, k) implies exists|l: int|
                0 <= l < self.entries@.len() && self.entries@[l].0@ == k
                    && self.entries@[l].1 is Some by {
                lemma_map_of_contains(self.entries@, k);
                let l = choose|l: int| 0 <= l < self.entries@.len() && self.entries@[l].0@ == k;
                lemma_map_of_at(self.entries@, l);
            }
            if best is Some {
                let j = best->Some_0;
                lemma_map_of_at(self.entries@, j as int);
            }
        }
        match backing {
            None => {
                match best {
                    None => {
                        proof {
                            assert forall|k: Seq<u8>| !diff_candidate(m, req, or_equal, k) by {
                                if diff_candidate(m, req, or_equal, k) {
                                    let l = choose|l: int|
                                        0 <= l < self.entries@.len() && self.entries@[l].0@ == k
                                            && self.entries@[l].1 is Some;
                                    assert(false);
                                }
                            }
                        }
                        StorageNextKey::Found(None)
                    },
                    Some(j) => {
                        let k = copy_bytes(&self.entries[j].0);
                        proof {
                            let kv = self.entries@[j as int].0@;
                            assert forall|x: Seq<u8>| diff_candidate(m, req, or_equal, x)
                                implies lex_le(kv, x) by {
                                let l = choose|l: int|
                                    0 <= l < self.entries@.len() && self.entries@[l].0@ == x
                                        && self.entries@[l].1 is Some;
                            }
                        }
                        StorageNextKey::Found(Some(k))
                    },
                }
            },
            Some(b) => {
                let mut best_le_b = false;
                if let Some(j) = &best {
                    best_le_b = !matches!(lex_cmp(&self.entries[*j].0, b), LexOrd::Greater);
                }
                if best_le_b {
                    let j = best.unwrap();
                    let k = copy_bytes(&self.entries[j].0);
                    proof {
                        let kv = self.entries@[j as int].0@;
                        lemma_lex_trichotomy(kv, b@);
                        assert forall|x: Seq<u8>| diff_candidate(m, req, or_equal, x)
                            implies lex_le(kv, x) by {
                            let l = choose|l: int|
                                0 <= l < self.entries@.len() && self.entries@[l].0@ == x
                                    && self.entries@[l].1 is Some;
                        }
                    }
                    StorageNextKey::Found(Some(k))
                } else {
                    // No overlay write at or before the backing candidate.
                    proof {
                        assert forall|x: Seq<u8>| diff_candidate(m, req, or_equal, x)
                            implies lex_lt(b@, x) by {
                            let l = choose|l: int|
                                0 <= l < self.entries@.len() && self.entries@[l].0@ == x
                                    && self.entries@[l].1 is Some;
                            if best is Some {
                                let j = best->Some_0;
                                let kv = self.entries@[j as int].0@;
                                lemma_lex_trichotomy(kv, b@);
                                lemma_lex_lt_le_transitive(b@, kv, x);
                            } else {
                                assert(false);
                            }
                        }
                    }
                    let got = self.diff_get(b);
                    match got {
                        Some(stored) => {
                            match stored {
                                None => StorageNextKey::NextOf(copy_bytes(b)),
                                Some(_) => {
                                    proof {
                                        assert(diff_candidate(m, req, or_equal, b@));
                                        assert(lex_lt(b@, b@));
                                        lemma_lex_trichotomy(b@, b@);
                                        assert(false);
                                    }
                                    StorageNextKey::Found(Some(copy_bytes(b)))
                                },
                            }
                        },
                        None => {
                            proof {
                                assert forall|x: Seq<u8>| diff_candidate(m, req, or_equal, x)
                                    implies lex_le(b@, x) by {
                                    assert(lex_lt(b@, x));
                                }
                            }
                            StorageNextKey::Found(Some(copy_bytes(b)))
                        },
                    }
                }
            },
        }
    }
}

} // verus!
