//! Lexicographic order on byte strings.
//!
//! Storage keys are byte strings ordered lexicographically; the overlay's
//! ordered "next key" search and the clear-prefix iteration are specified
//! over this order.

use vstd::prelude::*;

verus! {

/// Outcome of a three-way comparison of two byte strings.
pub enum LexOrd {
    Less,
    Equal,
    Greater,
}

/// `a` comes strictly before `b` in lexicographic order.
pub open spec fn lex_lt(a: Seq<u8>, b: Seq<u8>) -> bool
    decreases a.len() + b.len(),
{
    if b.len() == 0 {
        false
    } else if a.len() == 0 {
        true
    } else if a[0] < b[0] {
        true
    } else if a[0] > b[0] {
        false
    } else {
        lex_lt(a.skip(1), b.skip(1))
    }
}

/// `a` comes before `b`, or equals it.
pub open spec fn lex_le(a: Seq<u8>, b: Seq<u8>) -> bool {
    lex_lt(a, b) || a == b
}

/// `p` is a prefix of `s`.
pub open spec fn is_prefix(p: Seq<u8>, s: Seq<u8>) -> bool {
    p.len() <= s.len() && p == s.subrange(0, p.len() as int)
}

/// Of two distinct byte strings, exactly one comes before the other.
pub proof fn lemma_lex_trichotomy(a: Seq<u8>, b: Seq<u8>)
    ensures
        lex_lt(a, b) || lex_lt(b, a) || a == b,
        lex_lt(a, b) ==> !lex_lt(b, a) && a != b,
        lex_lt(b, a) ==> !lex_lt(a, b) && a != b,
    decreases a.len() + b.len(),
{
    if a.len() == 0 && b.len() == 0 {
        assert(a =~= b);
    } else if a.len() == 0 || b.len() == 0 {
    } else if a[0] == b[0] {
        lemma_lex_trichotomy(a.skip(1), b.skip(1));
        if a.skip(1) == b.skip(1) {
            assert(a =~= b) by {
                assert(forall|i: int| 1 <= i < a.len() ==> a[i] == a.skip(1)[i - 1]);
            }
        }
        if a == b {
            assert(a.skip(1) =~= b.skip(1));
        }
    } else {
        if a == b {
            assert(a[0] == b[0]);
        }
    }
}

/// Lexicographic order is transitive.
pub proof fn lemma_lex_lt_transitive(a: Seq<u8>, b: Seq<u8>, c: Seq<u8>)
    requires
        lex_lt(a, b),
        lex_lt(b, c),
    ensures
        lex_lt(a, c),
    decreases a.len() + b.len() + c.len(),
{
    if a.len() == 0 {
        assert(b.len() > 0);
        assert(c.len() > 0);
    } else {
        assert(b.len() > 0);
        assert(c.len() > 0);
        if a[0] == b[0] && b[0] == c[0] {
            lemma_lex_lt_transitive(a.skip(1), b.skip(1), c.skip(1));
        }
    }
}

/// Transitivity in the mixed weak/strict forms.
pub proof fn lemma_lex_le_lt_transitive(a: Seq<u8>, b: Seq<u8>, c: Seq<u8>)
    requires
        lex_le(a, b),
        lex_lt(b, c),
    ensures
        lex_lt(a, c),
{
    if lex_lt(a, b) {
        lemma_lex_lt_transitive(a, b, c);
    }
}

/// Transitivity in the other mixed form.
pub proof fn lemma_lex_lt_le_transitive(a: Seq<u8>, b: Seq<u8>, c: Seq<u8>)
    requires
        lex_lt(a, b),
        lex_le(b, c),
    ensures
        lex_lt(a, c),
{
    if lex_lt(b, c) {
        lemma_lex_lt_transitive(a, b, c);
    }
}

/// Skipping a shared prefix does not change how two byte strings compare.
pub proof fn lemma_lex_skip_common(a: Seq<u8>, b: Seq<u8>, i: int)
    requires
        0 <= i <= a.len(),
        i <= b.len(),
        a.subrange(0, i) == b.subrange(0, i),
    ensures
        lex_lt(a, b) == lex_lt(a.skip(i), b.skip(i)),
    decreases i,
{
    if i > 0 {
        assert(a.len() > 0 && b.len() > 0);
        assert(a[0] == b[0]) by {
            assert(a.subrange(0, i)[0] == a[0]);
            assert(b.subrange(0, i)[0] == b[0]);
        }
        assert(a.skip(1).subrange(0, i - 1) =~= b.skip(1).subrange(0, i - 1)) by {
            assert(forall|j: int|
                0 <= j < i - 1 ==> a.skip(1)[j] == a.subrange(0, i)[j + 1]
                    && b.skip(1)[j] == b.subrange(0, i)[j + 1]);
        }
        lemma_lex_skip_common(a.skip(1), b.skip(1), i - 1);
        assert(a.skip(1).skip(i - 1) =~= a.skip(i));
        assert(b.skip(1).skip(i - 1) =~= b.skip(i));
    } else {
        assert(a.skip(0) =~= a);
        assert(b.skip(0) =~= b);
    }
}

/// Three-way comparison of two byte strings.
pub fn lex_cmp(a: &Vec<u8>, b: &Vec<u8>) -> (r: LexOrd)
    ensures
        r is Less <==> lex_lt(a@, b@),
        r is Greater <==> lex_lt(b@, a@),
        r is Equal <==> a@ == b@,
{
    let mut i: usize = 0;
    loop
        invariant
            0 <= i <= a.len(),
            i <= b.len(),
            a@.subrange(0, i as int) == b@.subrange(0, i as int),
        decreases a.len() - i,
    {
        proof {
            lemma_lex_skip_common(a@, b@, i as int);
            lemma_lex_skip_common(b@, a@, i as int);
            lemma_lex_trichotomy(a@, b@);
        }
        if i == a.len() && i == b.len() {
            proof {
                assert(a@ =~= b@);
            }
            return LexOrd::Equal;
        } else if i == a.len() {
            proof {
                assert(a@.skip(i as int).len() == 0);
                assert(b@.skip(i as int).len() > 0);
            }
            return LexOrd::Less;
        } else if i == b.len() {
            proof {
                assert(b@.skip(i as int).len() == 0);
                assert(a@.skip(i as int).len() > 0);
            }
            return LexOrd::Greater;
        } else {
            let x = a[i];
            let y = b[i];
            proof {
                assert(a@.skip(i as int)[0] == a@[i as int]);
                assert(b@.skip(i as int)[0] == b@[i as int]);
            }
            if x < y {
                return LexOrd::Less;
            } else if x > y {
                return LexOrd::Greater;
            }
            proof {
                assert(a@.subrange(0, i + 1 as int) =~= b@.subrange(0, i + 1 as int)) by {
                    assert(forall|j: int|
                        0 <= j < i ==> a@.subrange(0, i + 1 as int)[j] == a@.subrange(0, i as int)[j]
                            && b@.subrange(0, i + 1 as int)[j] == b@.subrange(0, i as int)[j]);
                }
            }
            i = i + 1;
        }
    }
}

/// An owned copy of a byte string.
pub fn copy_bytes(v: &Vec<u8>) -> (r: Vec<u8>)
    ensures
        r@ == v@,
{
    let mut r: Vec<u8> = Vec::new();
    let mut i: usize = 0;
    while i < v.len()
        invariant
            0 <= i <= v.len(),
            r@ == v@.subrange(0, i as int),
        decreases v.len() - i,
    {
        proof {
            assert(v@.subrange(0, i as int).push(v@[i as int]) =~= v@.subrange(0, i + 1 as int));
        }
        r.push(v[i]);
        i = i + 1;
    }
    proof {
        assert(v@.subrange(0, v@.len() as int) =~= v@);
    }
    r
}

/// Whether `p` is a prefix of `s`.
pub fn starts_with(s: &Vec<u8>, p: &Vec<u8>) -> (r: bool)
    ensures
        r == is_prefix(p@, s@),
{
    if p.len() > s.len() {
        proof {
            assert(!is_prefix(p@, s@));
        }
        return false;
    }
    let mut i: usize = 0;
    while i < p.len()
        invariant
            0 <= i <= p.len(),
            p.len() <= s.len(),
            p@.subrange(0, i as int) == s@.subrange(0, i as int),
        decreases p.len() - i,
    {
        if p[i] != s[i] {
            proof {
                assert(p@[i as int] != s@.subrange(0, p@.len() as int)[i as int]);
            }
            return false;
        }
        proof {
            assert(p@.subrange(0, i + 1 as int) =~= s@.subrange(0, i + 1 as int)) by {
                assert(forall|j: int|
                    0 <= j < i ==> p@.subrange(0, i + 1 as int)[j] == p@.subrange(0, i as int)[j]
                        && s@.subrange(0, i + 1 as int)[j] == s@.subrange(0, i as int)[j]);
            }
        }
        i = i + 1;
    }
    proof {
        assert(p@ =~= s@.subrange(0, p@.len() as int));
    }
    true
}

} // verus!
