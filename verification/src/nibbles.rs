//! Conversion between byte keys and nibble keys.
//!
//! The trie-root calculator works at nibble granularity: every byte of a
//! storage key splits into its high and its low 4-bit half. Keys of the
//! backing store always have an even number of nibbles.

use vstd::prelude::*;
use crate::bytes_order::lex_lt;

verus! {

/// The nibbles of a byte string: each byte contributes its high then its low half.
pub open spec fn nibbles_of(s: Seq<u8>) -> Seq<u8> {
    Seq::new(2 * s.len(), |i: int| if i % 2 == 0 { s[i / 2] / 16 } else { s[i / 2] % 16 })
}

/// Every element is a nibble, that is below 16.
pub open spec fn valid_nibbles(s: Seq<u8>) -> bool {
    forall|i: int| 0 <= i < s.len() ==> s[i] < 16
}

/// Splits a byte key into its nibbles.
pub fn bytes_to_nibbles(v: &Vec<u8>) -> (r: Vec<u8>)
    ensures
        r@ == nibbles_of(v@),
{
    let mut r: Vec<u8> = Vec::new();
    let mut i: usize = 0;
    while i < v.len()
        invariant
            0 <= i <= v.len(),
            r@.len() == 2 * i,
            forall|j: int| 0 <= j < r@.len() ==> r@[j] == nibbles_of(v@)[j],
        decreases v.len() - i,
    {
        let b = v[i];
        r.push(b / 16);
        r.push(b % 16);
        i = i + 1;
    }
    proof {
        assert(r@ =~= nibbles_of(v@));
    }
    r
}

/// The bytes an even-length nibble string packs into.
pub open spec fn bytes_of_nibbles(s: Seq<u8>) -> Seq<u8> {
    Seq::new(s.len() / 2, |i: int| (s[2 * i] * 16 + s[2 * i + 1]) as u8)
}

/// Packs an even-length nibble string back into bytes.
pub fn nibbles_to_bytes(v: &Vec<u8>) -> (r: Vec<u8>)
    requires
        valid_nibbles(v@),
        v@.len() % 2 == 0,
    ensures
        nibbles_of(r@) == v@,
        r@ == bytes_of_nibbles(v@),
        2 * r@.len() == v@.len(),
{
    let mut r: Vec<u8> = Vec::new();
    let mut i: usize = 0;
    while i + 1 < v.len()
        invariant
            valid_nibbles(v@),
            v@.len() % 2 == 0,
            0 <= i <= v.len(),
            i % 2 == 0,
            2 * r@.len() == i,
            forall|j: int| 0 <= j < r@.len() ==> r@[j] == v@[2 * j] * 16 + v@[2 * j + 1],
        decreases v.len() - i,
    {
        let hi = v[i];
        let lo = v[i + 1];
        r.push(hi * 16 + lo);
        i = i + 2;
    }
    proof {
        assert(i == v@.len());
        assert(r@ =~= bytes_of_nibbles(v@));
        assert(nibbles_of(r@) =~= v@) by {
            assert(forall|m: int| 0 <= m < v@.len() && m % 2 == 0
                ==> #[trigger] nibbles_of(r@)[m] == v@[m]) by {
                assert(forall|m: int| 0 <= m < v@.len() && m % 2 == 0
                    ==> (v@[m] * 16 + v@[m + 1]) / 16 == v@[m] && #[trigger] r@[m / 2] == v@[m] * 16 + v@[m + 1]);
            }
            assert(forall|m: int| 0 <= m < v@.len() && m % 2 == 1
                ==> #[trigger] nibbles_of(r@)[m] == v@[m]) by {
                assert(forall|m: int| 0 <= m < v@.len() && m % 2 == 1
                    ==> (v@[m - 1] * 16 + v@[m]) % 16 == v@[m] && #[trigger] r@[m / 2] == v@[m - 1] * 16 + v@[m]);
            }
        }
    }
    r
}

/// The nibbles of a shorter byte string drop out of a skip of the longer one.
pub proof fn lemma_nibbles_skip(a: Seq<u8>)
    requires
        a.len() > 0,
    ensures
        nibbles_of(a).skip(2) == nibbles_of(a.skip(1)),
{
    assert(nibbles_of(a).skip(2) =~= nibbles_of(a.skip(1)));
}

/// Nibble strings of byte keys compare as the byte keys do.
pub proof fn lemma_nibble_lex(a: Seq<u8>, b: Seq<u8>)
    ensures
        lex_lt(nibbles_of(a), nibbles_of(b)) == lex_lt(a, b),
    decreases a.len() + b.len(),
{
    let na = nibbles_of(a);
    let nb = nibbles_of(b);
    if b.len() == 0 {
        assert(nb.len() == 0);
    } else if a.len() == 0 {
        assert(na.len() == 0 && nb.len() > 0);
    } else {
        assert(na[0] == a[0] / 16 && na[1] == a[0] % 16);
        assert(nb[0] == b[0] / 16 && nb[1] == b[0] % 16);
        if a[0] / 16 == b[0] / 16 && a[0] % 16 == b[0] % 16 {
            assert(a[0] == b[0]) by {
                assert(a[0] == 16 * (a[0] / 16) + a[0] % 16);
                assert(b[0] == 16 * (b[0] / 16) + b[0] % 16);
            }
            lemma_nibble_lex(a.skip(1), b.skip(1));
            lemma_nibbles_skip(a);
            lemma_nibbles_skip(b);
            assert(lex_lt(na, nb) == lex_lt(na.skip(1), nb.skip(1)));
            assert(na.skip(1)[0] == na[1] && nb.skip(1)[0] == nb[1]);
            assert(na.skip(1).len() > 0 && nb.skip(1).len() > 0);
            assert(lex_lt(na.skip(1), nb.skip(1)) == lex_lt(na.skip(1).skip(1), nb.skip(1).skip(1)));
            assert(na.skip(1).skip(1) =~= na.skip(2));
            assert(nb.skip(1).skip(1) =~= nb.skip(2));
            assert(lex_lt(a, b) == lex_lt(a.skip(1), b.skip(1)));
        } else if a[0] / 16 < b[0] / 16 {
            assert(a[0] < b[0]) by {
                assert(a[0] == 16 * (a[0] / 16) + a[0] % 16 && a[0] % 16 < 16);
                assert(b[0] == 16 * (b[0] / 16) + b[0] % 16 && b[0] % 16 >= 0);
            }
        } else if a[0] / 16 > b[0] / 16 {
            assert(a[0] > b[0]) by {
                assert(a[0] == 16 * (a[0] / 16) + a[0] % 16 && a[0] % 16 >= 0);
                assert(b[0] == 16 * (b[0] / 16) + b[0] % 16 && b[0] % 16 < 16);
            }
        } else if a[0] % 16 < b[0] % 16 {
            assert(a[0] < b[0]) by {
                assert(a[0] == 16 * (a[0] / 16) + a[0] % 16);
                assert(b[0] == 16 * (b[0] / 16) + b[0] % 16);
            }
            assert(na[0] == nb[0] && na.skip(1)[0] == na[1] && nb.skip(1)[0] == nb[1]);
            assert(lex_lt(na, nb) == lex_lt(na.skip(1), nb.skip(1)));
            assert(lex_lt(na.skip(1), nb.skip(1)));
            assert(lex_lt(a, b));
        } else {
            assert(a[0] > b[0]) by {
                assert(a[0] == 16 * (a[0] / 16) + a[0] % 16);
                assert(b[0] == 16 * (b[0] / 16) + b[0] % 16);
            }
            assert(na[0] == nb[0] && na.skip(1)[0] == na[1] && nb.skip(1)[0] == nb[1]);
            assert(lex_lt(na, nb) == lex_lt(na.skip(1), nb.skip(1)));
            assert(!lex_lt(na.skip(1), nb.skip(1)));
            assert(!lex_lt(a, b));
        }
    }
}

} // verus!
