//! SCALE compact unsigned-integer encoding.
//!
//! A compact integer is a variable-width encoding whose first byte's low two
//! bits select the mode: `0b00` one byte, `0b01` two bytes, `0b10` four
//! bytes (all little-endian, value shifted left by two), `0b11` a length
//! byte followed by the value's little-endian bytes. Decoding is canonical:
//! a value encoded in a wider mode than necessary is rejected.

use vstd::prelude::*;
use crate::bytes_order::is_prefix;

verus! {

/// `256 ^ j`.
pub open spec fn pow256(j: int) -> int
    decreases j,
{
    if j <= 0 {
        1
    } else {
        256 * pow256(j - 1)
    }
}

/// The `m` little-endian bytes of `v`.
pub open spec fn le_bytes(v: int, m: int) -> Seq<u8>
    decreases m,
{
    if m <= 0 {
        Seq::empty()
    } else {
        seq![(v % 256) as u8] + le_bytes(v / 256, m - 1)
    }
}

/// The number of bytes of the canonical compact encoding of `n`.
pub open spec fn compact_width(n: u64) -> int {
    if n < 64 {
        1
    } else if n < 16384 {
        2
    } else if n < 0x4000_0000 {
        4
    } else if n < 0x1_0000_0000 {
        5
    } else if n < 0x100_0000_0000 {
        6
    } else if n < 0x1_0000_0000_0000 {
        7
    } else if n < 0x100_0000_0000_0000 {
        8
    } else {
        9
    }
}

/// The canonical compact encoding of `n`.
pub open spec fn encode_compact(n: u64) -> Seq<u8> {
    if n < 64 {
        le_bytes(n * 4, 1)
    } else if n < 16384 {
        le_bytes(n * 4 + 1, 2)
    } else if n < 0x4000_0000 {
        le_bytes(n * 4 + 2, 4)
    } else {
        seq![(((compact_width(n) - 5) * 4 + 3)) as u8] + le_bytes(n as int, compact_width(n) - 1)
    }
}

/// Some canonical compact encoding is a prefix of `s`.
pub open spec fn has_compact_prefix(s: Seq<u8>) -> bool {
    exists|n: u64| is_prefix(#[trigger] encode_compact(n), s)
}

/// `le_bytes` produces exactly `m` bytes.
pub proof fn lemma_le_bytes_len(v: int, m: int)
    requires
        m >= 0,
    ensures
        le_bytes(v, m).len() == m,
    decreases m,
{
    if m > 0 {
        lemma_le_bytes_len(v / 256, m - 1);
    }
}

/// The compact encoding of `n` has `compact_width(n)` bytes.
pub proof fn lemma_encode_len(n: u64)
    ensures
        encode_compact(n).len() == compact_width(n),
{
    if n < 64 {
        lemma_le_bytes_len(n * 4, 1);
    } else if n < 16384 {
        lemma_le_bytes_len(n * 4 + 1, 2);
    } else if n < 0x4000_0000 {
        lemma_le_bytes_len(n * 4 + 2, 4);
    } else {
        lemma_le_bytes_len(n as int, compact_width(n) - 1);
    }
}

/// Appending one more significant byte extends the little-endian bytes.
pub proof fn lemma_le_bytes_push(a: int, d: int, j: int, pw: int)
    requires
        0 <= a < pw,
        0 <= d < 256,
        j >= 0,
        pw == pow256(j),
    ensures
        le_bytes(a + d * pw, j + 1) == le_bytes(a, j).push(d as u8),
    decreases j,
{
    if j == 0 {
        assert(pw == 1);
        assert(a == 0);
        assert(le_bytes(d, 1) =~= Seq::empty().push(d as u8)) by {
            assert(d % 256 == d);
            assert(le_bytes(d / 256, 0) =~= Seq::<u8>::empty());
        }
    } else {
        let pw1 = pow256(j - 1);
        assert(pw == 256 * pw1);
        assert(pw1 >= 1) by {
            lemma_pow256_pos(j - 1);
        }
        let x = a + d * pw;
        assert(x == a + (d * pw1) * 256) by (nonlinear_arith)
            requires pw == 256 * pw1, x == a + d * pw;
        assert(x % 256 == a % 256 && x / 256 == a / 256 + d * pw1) by (nonlinear_arith)
            requires x == a + (d * pw1) * 256, a >= 0, d >= 0, pw1 >= 1;
        assert(a / 256 < pw1) by (nonlinear_arith)
            requires 0 <= a, a < 256 * pw1, pw1 >= 1;
        lemma_le_bytes_push(a / 256, d, j - 1, pw1);
        assert(le_bytes(x, j + 1) == seq![(x % 256) as u8] + le_bytes(x / 256, j));
        assert(le_bytes(a, j) == seq![(a % 256) as u8] + le_bytes(a / 256, j - 1));
        assert(seq![(a % 256) as u8] + le_bytes(a / 256, j - 1).push(d as u8) =~= (
        seq![(a % 256) as u8] + le_bytes(a / 256, j - 1)).push(d as u8));
    }
}

/// `256 ^ j` is positive.
pub proof fn lemma_pow256_pos(j: int)
    ensures
        pow256(j) >= 1,
    decreases (if j > 0 { j } else { 0 }),
{
    if j > 0 {
        lemma_pow256_pos(j - 1);
    }
}

/// The little-endian value of a byte string.
pub open spec fn le_val(s: Seq<u8>) -> int
    decreases s.len(),
{
    if s.len() == 0 {
        0
    } else {
        s[0] + 256 * le_val(s.skip(1))
    }
}

/// Reading back the little-endian bytes of a value below `256 ^ m` yields the value.
pub proof fn lemma_le_bytes_val(v: int, m: int)
    requires
        m >= 0,
        0 <= v < pow256(m),
    ensures
        le_val(le_bytes(v, m)) == v,
    decreases m,
{
    if m == 0 {
        assert(v == 0);
    } else {
        let pw1 = pow256(m - 1);
        assert(pw1 >= 1) by {
            lemma_pow256_pos(m - 1);
        }
        assert(v / 256 < pw1) by (nonlinear_arith)
            requires 0 <= v, v < 256 * pw1, pw1 >= 1;
        lemma_le_bytes_val(v / 256, m - 1);
        let s = le_bytes(v, m);
        assert(s.skip(1) =~= le_bytes(v / 256, m - 1));
        assert(s[0] == v % 256);
        assert(v % 256 + 256 * (v / 256) == v);
    }
}

/// Equal little-endian byte strings denote equal values below `256 ^ m`.
pub proof fn lemma_le_bytes_injective(v1: int, v2: int, m: int)
    requires
        m >= 0,
        0 <= v1 < pow256(m),
        0 <= v2 < pow256(m),
        le_bytes(v1, m) == le_bytes(v2, m),
    ensures
        v1 == v2,
{
    lemma_le_bytes_val(v1, m);
    lemma_le_bytes_val(v2, m);
}

/// A remainder modulo 256 keeps its remainder modulo 4.
proof fn lemma_mod256_mod4(x: int)
    requires
        x >= 0,
    ensures
        (x % 256) % 4 == x % 4,
{
    assert((x % 256) % 4 == x % 4) by (nonlinear_arith)
        requires x >= 0;
}

/// The first byte of a compact encoding pins the encoding's width.
pub proof fn lemma_first_byte_width(n: u64)
    ensures
        encode_compact(n).len() == compact_width(n),
        encode_compact(n).len() >= 1,
        ({
            let b = encode_compact(n)[0] as int;
            &&& (b % 4 == 0 ==> compact_width(n) == 1 && n == b / 4)
            &&& (b % 4 == 1 ==> compact_width(n) == 2)
            &&& (b % 4 == 2 ==> compact_width(n) == 4)
            &&& (b % 4 == 3 ==> compact_width(n) == b / 4 + 5)
        }),
{
    lemma_encode_len(n);
    if n < 64 {
        let x = n * 4;
        assert(encode_compact(n)[0] == (x % 256) as u8);
        assert(x % 256 == x);
        assert(x % 4 == 0 && x / 4 == n);
    } else if n < 16384 {
        let x = n * 4 + 1;
        assert(encode_compact(n)[0] == (x % 256) as u8);
        lemma_mod256_mod4(x as int);
        assert(x as int % 4 == 1);
    } else if n < 0x4000_0000 {
        let x = n * 4 + 2;
        assert(encode_compact(n)[0] == (x % 256) as u8);
        lemma_mod256_mod4(x as int);
        assert(x as int % 4 == 2);
    } else {
        let w = compact_width(n);
        let b = ((w - 5) * 4 + 3) as int;
        assert(encode_compact(n)[0] == b as u8);
        assert(0 <= b < 256);
        assert(b % 4 == 3 && b / 4 == w - 5);
    }
}

/// At most one value's compact encoding prefixes a given byte string.
pub proof fn lemma_compact_prefix_unique(n1: u64, n2: u64, s: Seq<u8>)
    requires
        is_prefix(encode_compact(n1), s),
        is_prefix(encode_compact(n2), s),
    ensures
        n1 == n2,
{
    lemma_first_byte_width(n1);
    lemma_first_byte_width(n2);
    let b = s[0] as int;
    assert(encode_compact(n1)[0] == s[0]) by {
        assert(encode_compact(n1)[0] == s.subrange(0, encode_compact(n1).len() as int)[0]);
    }
    assert(encode_compact(n2)[0] == s[0]) by {
        assert(encode_compact(n2)[0] == s.subrange(0, encode_compact(n2).len() as int)[0]);
    }
    let w = compact_width(n1);
    assert(compact_width(n2) == w);
    assert(encode_compact(n1) =~= s.subrange(0, w));
    assert(encode_compact(n2) =~= s.subrange(0, w));
    assert(encode_compact(n1) == encode_compact(n2));
    lemma_pow256_values();
    if b % 4 == 0 {
    } else if b % 4 == 1 {
        assert(64 <= n1 < 16384 && 64 <= n2 < 16384);
        lemma_le_bytes_injective(n1 * 4 + 1, n2 * 4 + 1, 2);
    } else if b % 4 == 2 {
        assert(16384 <= n1 < 0x4000_0000 && 16384 <= n2 < 0x4000_0000);
        lemma_le_bytes_injective(n1 * 4 + 2, n2 * 4 + 2, 4);
    } else {
        let tail1 = encode_compact(n1).skip(1);
        let tail2 = encode_compact(n2).skip(1);
        assert(tail1 == tail2);
        assert(tail1 =~= le_bytes(n1 as int, w - 1)) by {
            lemma_le_bytes_len(n1 as int, w - 1);
        }
        assert(tail2 =~= le_bytes(n2 as int, w - 1)) by {
            lemma_le_bytes_len(n2 as int, w - 1);
        }
        assert((n1 as int) < pow256(w - 1) && (n2 as int) < pow256(w - 1));
        lemma_le_bytes_injective(n1 as int, n2 as int, w - 1);
    }
}

/// The concrete values of the small powers of 256.
pub proof fn lemma_pow256_values()
    ensures
        pow256(0) == 1,
        pow256(1) == 256,
        pow256(2) == 0x1_0000,
        pow256(3) == 0x100_0000,
        pow256(4) == 0x1_0000_0000,
        pow256(5) == 0x100_0000_0000,
        pow256(6) == 0x1_0000_0000_0000,
        pow256(7) == 0x100_0000_0000_0000,
        pow256(8) == 0x1_0000_0000_0000_0000,
{
    assert(pow256(0) == 1);
    assert(pow256(1) == 256 * pow256(0));
    assert(pow256(2) == 256 * pow256(1));
    assert(pow256(3) == 256 * pow256(2));
    assert(pow256(4) == 256 * pow256(3));
    assert(pow256(5) == 256 * pow256(4));
    assert(pow256(6) == 256 * pow256(5));
    assert(pow256(7) == 256 * pow256(6));
    assert(pow256(8) == 256 * pow256(7));
}

/// Powers of 256 do not decrease with the exponent.
pub proof fn lemma_pow256_increases(i: int, j: int)
    requires
        0 <= i <= j,
    ensures
        pow256(i) <= pow256(j),
    decreases j - i,
{
    if i < j {
        lemma_pow256_increases(i, j - 1);
        lemma_pow256_pos(j - 1);
    }
}

/// Appends the `m` little-endian bytes of `v` to `out`.
fn push_le_bytes(out: &mut Vec<u8>, v: u64, m: usize)
    requires
        m <= 8,
        (v as int) < pow256(m as int),
    ensures
        final(out)@ == old(out)@ + le_bytes(v as int, m as int),
{
    let ghost orig = out@;
    let mut v_cur = v;
    let mut k = m;
    proof {
        assert(orig + le_bytes(v as int, m as int) == out@ + le_bytes(v_cur as int, k as int));
    }
    while k > 0
        invariant
            k <= m,
            orig + le_bytes(v as int, m as int) == out@ + le_bytes(v_cur as int, k as int),
            k == 0 ==> v_cur == 0,
            (v_cur as int) < pow256(k as int),
        decreases k,
    {
        let b = (v_cur % 256) as u8;
        proof {
            let s0 = out@;
            let lv = v_cur as int;
            assert(le_bytes(lv, k as int) == seq![(lv % 256) as u8] + le_bytes(lv / 256, k as int - 1));
            assert(s0 + (seq![(lv % 256) as u8] + le_bytes(lv / 256, k as int - 1)) =~= s0.push((lv % 256) as u8) + le_bytes(lv / 256, k as int - 1));
            lemma_pow256_pos(k as int - 1);
            assert(lv / 256 < pow256(k as int - 1)) by (nonlinear_arith)
                requires 0 <= lv, lv < 256 * pow256(k as int - 1), pow256(k as int - 1) >= 1;
        }
        out.push(b);
        v_cur = v_cur / 256;
        k = k - 1;
        proof {
            if k == 0 {
                assert(pow256(0) == 1);
            }
        }
    }
    proof {
        assert(le_bytes(v_cur as int, 0) =~= Seq::<u8>::empty());
        assert(out@ + Seq::<u8>::empty() =~= out@);
    }
}

/// The canonical compact encoding of `n`, as bytes.
pub fn encode_compact_u64(n: u64) -> (r: Vec<u8>)
    ensures
        r@ == encode_compact(n),
{
    proof {
        lemma_pow256_values();
    }
    let mut out: Vec<u8> = Vec::new();
    if n < 64 {
        push_le_bytes(&mut out, n * 4, 1);
        proof {
            assert(Seq::<u8>::empty() + le_bytes((n * 4) as int, 1) =~= le_bytes((n * 4) as int, 1));
        }
    } else if n < 16384 {
        push_le_bytes(&mut out, n * 4 + 1, 2);
        proof {
            assert(Seq::<u8>::empty() + le_bytes((n * 4 + 1) as int, 2) =~= le_bytes((n * 4 + 1) as int, 2));
        }
    } else if n < 0x4000_0000 {
        push_le_bytes(&mut out, n * 4 + 2, 4);
        proof {
            assert(Seq::<u8>::empty() + le_bytes((n * 4 + 2) as int, 4) =~= le_bytes((n * 4 + 2) as int, 4));
        }
    } else {
        let m: usize = if n < 0x1_0000_0000 {
            4
        } else if n < 0x100_0000_0000 {
            5
        } else if n < 0x1_0000_0000_0000 {
            6
        } else if n < 0x100_0000_0000_0000 {
            7
        } else {
            8
        };
        proof {
            assert(compact_width(n) - 1 == m as int);
        }
        let first: u8 = ((m as u8) - 4) * 4 + 3;
        out.push(first);
        push_le_bytes(&mut out, n, m);
        proof {
            assert(first as int == (compact_width(n) - 5) * 4 + 3);
            assert(Seq::<u8>::empty().push(first) + le_bytes(n as int, m as int) =~= seq![first] + le_bytes(n as int, m as int));
            assert(seq![(((compact_width(n) - 5) * 4 + 3)) as u8] =~= seq![first]);
        }
    }
    out
}

/// Reads `m` little-endian bytes of `s` starting at `off`.
fn read_le_bytes(s: &Vec<u8>, off: usize, m: usize) -> (r: u64)
    requires
        1 <= m <= 8,
        off + m <= s.len(),
    ensures
        le_bytes(r as int, m as int) == s@.subrange(off as int, off as int + m as int),
        (r as int) < pow256(m as int),
{
    proof {
        lemma_pow256_values();
    }
    let mut val: u64 = 0;
    let mut pw: u64 = 1;
    let mut j: usize = 0;
    while j < m
        invariant
            1 <= m <= 8,
            off + m <= s.len(),
            0 <= j <= m,
            j < m ==> pw as int == pow256(j as int),
            (val as int) < pow256(j as int),
            le_bytes(val as int, j as int) == s@.subrange(off as int, off as int + j as int),
        decreases m - j,
    {
        let d = s[off + j];
        proof {
            let ji = j as int;
            let j1 = ji + 1;
            let vi = val as int;
            let di = d as int;
            let pwi = pw as int;
            lemma_pow256_values();
            lemma_pow256_increases(ji, 7);
            lemma_pow256_increases(j1, 8);
            lemma_le_bytes_push(vi, di, ji, pwi);
            assert(pow256(j1) == 256 * pow256(ji));
            assert(vi + di * pwi < pow256(j1)) by (nonlinear_arith)
                requires
                    vi < pow256(ji),
                    0 <= di < 256,
                    pwi == pow256(ji),
                    pow256(j1) == 256 * pow256(ji),
                    pow256(ji) >= 1,
                    vi >= 0;
            assert(le_bytes(vi, ji).push(d) =~= s@.subrange(off as int, off + j1)) by {
                assert(s@.subrange(off as int, off + j1).drop_last() =~= s@.subrange(off as int, off + ji));
                assert(s@.subrange(off as int, off + j1).last() == s@[off + ji]);
                assert(le_bytes(vi, ji).len() == ji) by {
                    lemma_le_bytes_len(vi, ji);
                }
            }
        }
        val = val + (d as u64) * pw;
        if j + 1 < m {
            proof {
                lemma_pow256_increases(j as int + 1, 7);
                assert(pw as int * 256 == pow256(j as int + 1));
            }
            pw = pw * 256;
        }
        j = j + 1;
    }
    val
}

/// If a compact encoding prefixes `s`, its first byte is `s`'s first byte.
proof fn lemma_prefix_first_byte(n: u64, s: Seq<u8>)
    requires
        is_prefix(encode_compact(n), s),
    ensures
        s.len() >= compact_width(n),
        compact_width(n) >= 1,
        encode_compact(n)[0] == s[0],
{
    lemma_encode_len(n);
    assert(encode_compact(n)[0] == s.subrange(0, compact_width(n))[0]);
}

/// The smallest value whose canonical big-integer encoding uses `m` payload bytes.
pub open spec fn bigint_min(m: int) -> int {
    if m <= 4 {
        0x4000_0000
    } else {
        pow256(m - 1)
    }
}

/// Decodes a canonical compact integer from the front of `v`.
///
/// Returns the value and the number of bytes the encoding occupies, or
/// `None` when no canonical compact encoding prefixes `v`.
pub fn decode_compact_u64(v: &Vec<u8>) -> (r: Option<(u64, usize)>)
    ensures
        match r {
            Some(p) => is_prefix(encode_compact(p.0), v@) && p.1 as int == compact_width(p.0),
            None => !has_compact_prefix(v@),
        },
{
    proof {
        lemma_pow256_values();
    }
    if v.len() == 0 {
        proof {
            assert forall|n: u64| !is_prefix(#[trigger] encode_compact(n), v@) by {
                lemma_encode_len(n);
            }
        }
        return None;
    }
    let b0 = v[0];
    let mode = b0 % 4;
    if mode == 0 {
        let n = (b0 / 4) as u64;
        proof {
            assert(n < 64);
            assert(b0 as int == n * 4);
            assert(encode_compact(n) =~= v@.subrange(0, 1)) by {
                assert(le_bytes(n * 4, 1) =~= seq![b0]) by {
                    assert((n * 4) % 256 == b0 as int);
                    assert(le_bytes((n * 4) as int / 256, 0) =~= Seq::<u8>::empty());
                }
                assert(v@.subrange(0, 1) =~= seq![b0]);
            }
        }
        Some((n, 1))
    } else if mode == 1 {
        if v.len() < 2 {
            proof {
                assert forall|n: u64| !is_prefix(#[trigger] encode_compact(n), v@) by {
                    if is_prefix(encode_compact(n), v@) {
                        lemma_prefix_first_byte(n, v@);
                        lemma_first_byte_width(n);
                    }
                }
            }
            return None;
        }
        let val = read_le_bytes(v, 0, 2);
        proof {
            assert(le_bytes(val as int, 2)[0] == (val as int % 256) as u8);
            assert(v@.subrange(0, 2)[0] == b0);
            assert(val as int % 256 == b0 as int);
            lemma_mod256_mod4(val as int);
            assert(val as int % 4 == 1);
        }
        let n = val / 4;
        proof {
            assert(n * 4 + 1 == val) by {
                assert(val as int == 4 * (val as int / 4) + val as int % 4);
            }
            assert(n < 16384);
        }
        if n >= 64 {
            proof {
                assert(encode_compact(n) == le_bytes(n * 4 + 1, 2));
                assert(encode_compact(n) =~= v@.subrange(0, 2));
            }
            Some((n, 2))
        } else {
            proof {
                assert forall|m: u64| !is_prefix(#[trigger] encode_compact(m), v@) by {
                    if is_prefix(encode_compact(m), v@) {
                        lemma_prefix_first_byte(m, v@);
                        lemma_first_byte_width(m);
                        assert(compact_width(m) == 2);
                        assert(64 <= m < 16384);
                        assert(encode_compact(m) =~= v@.subrange(0, 2));
                        assert(le_bytes(m * 4 + 1, 2) == le_bytes(val as int, 2));
                        lemma_le_bytes_injective(m * 4 + 1, val as int, 2);
                        assert(false);
                    }
                }
            }
            None
        }
    } else if mode == 2 {
        if v.len() < 4 {
            proof {
                assert forall|n: u64| !is_prefix(#[trigger] encode_compact(n), v@) by {
                    if is_prefix(encode_compact(n), v@) {
                        lemma_prefix_first_byte(n, v@);
                        lemma_first_byte_width(n);
                    }
                }
            }
            return None;
        }
        let val = read_le_bytes(v, 0, 4);
        proof {
            assert(le_bytes(val as int, 4)[0] == (val as int % 256) as u8);
            assert(v@.subrange(0, 4)[0] == b0);
            assert(val as int % 256 == b0 as int);
            lemma_mod256_mod4(val as int);
            assert(val as int % 4 == 2);
        }
        let n = val / 4;
        proof {
            assert(n * 4 + 2 == val) by {
                assert(val as int == 4 * (val as int / 4) + val as int % 4);
            }
            assert(n < 0x4000_0000);
        }
        if n >= 16384 {
            proof {
                assert(encode_compact(n) == le_bytes(n * 4 + 2, 4));
                assert(encode_compact(n) =~= v@.subrange(0, 4));
            }
            Some((n, 4))
        } else {
            proof {
                assert forall|m: u64| !is_prefix(#[trigger] encode_compact(m), v@) by {
                    if is_prefix(encode_compact(m), v@) {
                        lemma_prefix_first_byte(m, v@);
                        lemma_first_byte_width(m);
                        assert(compact_width(m) == 4);
                        assert(16384 <= m < 0x4000_0000);
                        assert(encode_compact(m) =~= v@.subrange(0, 4));
                        assert(le_bytes(m * 4 + 2, 4) == le_bytes(val as int, 4));
                        lemma_le_bytes_injective(m * 4 + 2, val as int, 4);
                        assert(false);
                    }
                }
            }
            None
        }
    } else {
        let mbytes = (b0 / 4) as usize + 4;
        proof {
            assert(b0 as int / 4 + 5 == mbytes as int + 1);
        }
        if mbytes > 8 || v.len() < 1 + mbytes {
            proof {
                assert forall|n: u64| !is_prefix(#[trigger] encode_compact(n), v@) by {
                    if is_prefix(encode_compact(n), v@) {
                        lemma_prefix_first_byte(n, v@);
                        lemma_first_byte_width(n);
                        assert(compact_width(n) == mbytes as int + 1);
                    }
                }
            }
            return None;
        }
        let val = read_le_bytes(v, 1, mbytes);
        let min: u64 = if mbytes == 4 {
            0x4000_0000
        } else if mbytes == 5 {
            0x1_0000_0000
        } else if mbytes == 6 {
            0x100_0000_0000
        } else if mbytes == 7 {
            0x1_0000_0000_0000
        } else {
            0x100_0000_0000_0000
        };
        proof {
            assert(min as int == bigint_min(mbytes as int));
        }
        if val >= min {
            proof {
                assert(compact_width(val) == mbytes as int + 1);
                let w = compact_width(val);
                assert(encode_compact(val) == seq![(((w - 5) * 4 + 3)) as u8] + le_bytes(val as int, mbytes as int));
                assert(((w - 5) * 4 + 3) as u8 == b0) by {
                    assert(w - 5 == b0 as int / 4);
                    assert(b0 as int == 4 * (b0 as int / 4) + 3);
                }
                assert(encode_compact(val) =~= v@.subrange(0, 1 + mbytes as int)) by {
                    lemma_le_bytes_len(val as int, mbytes as int);
                    assert(forall|i: int| 0 <= i < mbytes as int
                        ==> le_bytes(val as int, mbytes as int)[i] == v@.subrange(1, 1 + mbytes as int)[i]);
                    assert(forall|i: int| 0 <= i < mbytes as int
                        ==> #[trigger] v@.subrange(1, 1 + mbytes as int)[i] == v@[1 + i]);
                }
            }
            Some((val, 1 + mbytes))
        } else {
            proof {
                assert forall|m: u64| !is_prefix(#[trigger] encode_compact(m), v@) by {
                    if is_prefix(encode_compact(m), v@) {
                        lemma_prefix_first_byte(m, v@);
                        lemma_first_byte_width(m);
                        assert(compact_width(m) == mbytes as int + 1);
                        assert(m as int >= bigint_min(mbytes as int));
                        assert(encode_compact(m).skip(1) =~= le_bytes(m as int, mbytes as int)) by {
                            lemma_le_bytes_len(m as int, mbytes as int);
                        }
                        assert(encode_compact(m) =~= v@.subrange(0, 1 + mbytes as int));
                        assert(le_bytes(m as int, mbytes as int) =~= v@.subrange(1, 1 + mbytes as int)) by {
                            assert(forall|i: int| 0 <= i < mbytes as int
                                ==> encode_compact(m).skip(1)[i] == v@.subrange(0, 1 + mbytes as int)[1 + i]);
                        }
                        assert(le_bytes(m as int, mbytes as int) == le_bytes(val as int, mbytes as int)) by {
                            assert(le_bytes(val as int, mbytes as int) =~= v@.subrange(1, 1 + mbytes as int));
                        }
                        assert((m as int) < pow256(mbytes as int)) by {
                            if mbytes < 8 {
                            } else {
                            }
                        }
                        lemma_le_bytes_injective(m as int, val as int, mbytes as int);
                        assert(false);
                    }
                }
            }
            None
        }
    }
}

} // verus!
