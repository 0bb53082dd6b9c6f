//! In-place append to a SCALE length-prefixed storage value.
//!
//! A stored sequence is a compact-encoded element count followed by the
//! concatenated elements. Appending rewrites the count and adds the new
//! element's bytes at the end. A value that does not start with a canonical
//! compact count, or whose count cannot grow, is reset to a one-element
//! sequence.

use vstd::prelude::*;
use crate::bytes_order::is_prefix;
use crate::codec::{
    encode_compact, compact_width, has_compact_prefix, encode_compact_u64, decode_compact_u64,
    lemma_compact_prefix_unique,
};

verus! {

/// The storage value that results from appending the element `e` to `v`.
pub open spec fn appended_value(v: Seq<u8>, e: Seq<u8>) -> Seq<u8> {
    if has_compact_prefix(v) {
        let n = choose|n: u64| is_prefix(#[trigger] encode_compact(n), v);
        if n < u64::MAX {
            encode_compact((n + 1) as u64) + v.skip(compact_width(n)) + e
        } else {
            encode_compact(1) + e
        }
    } else {
        encode_compact(1) + e
    }
}

/// Appends each byte of `src` to `out`.
pub fn push_all(out: &mut Vec<u8>, src: &Vec<u8>)
    ensures
        final(out)@ == old(out)@ + src@,
{
    let ghost orig = out@;
    let mut i: usize = 0;
    while i < src.len()
        invariant
            0 <= i <= src.len(),
            out@ == orig + src@.subrange(0, i as int),
        decreases src.len() - i,
    {
        let b = src[i];
        proof {
            assert((orig + src@.subrange(0, i as int)).push(b) =~= orig + src@.subrange(0, i + 1));
        }
        out.push(b);
        i = i + 1;
    }
    proof {
        assert(orig + src@.subrange(0, src@.len() as int) =~= orig + src@);
    }
}

/// Appends the bytes of `src` from position `from` on to `out`.
fn push_tail(out: &mut Vec<u8>, src: &Vec<u8>, from: usize)
    requires
        from <= src.len(),
    ensures
        final(out)@ == old(out)@ + src@.skip(from as int),
{
    let ghost orig = out@;
    let mut i: usize = from;
    while i < src.len()
        invariant
            from <= i <= src.len(),
            out@ == orig + src@.subrange(from as int, i as int),
        decreases src.len() - i,
    {
        let b = src[i];
        proof {
            assert((orig + src@.subrange(from as int, i as int)).push(b) =~= orig + src@.subrange(
                from as int,
                i + 1,
            ));
        }
        out.push(b);
        i = i + 1;
    }
    proof {
        assert(orig + src@.subrange(from as int, src@.len() as int) =~= orig + src@.skip(
            from as int,
        ));
    }
}

/// Rewrites `value` to hold one more element, `to_add`, at its end.
pub fn append_to_storage_value(value: &mut Vec<u8>, to_add: &Vec<u8>)
    ensures
        final(value)@ == appended_value(old(value)@, to_add@),
{
    let d = decode_compact_u64(value);
    let mut out: Vec<u8>;
    let ghost v0 = value@;
    if let Some(p) = d {
        if p.0 < u64::MAX {
            proof {
                crate::codec::lemma_encode_len(p.0);
            }
            out = encode_compact_u64(p.0 + 1);
            push_tail(&mut out, value, p.1);
            proof {
                assert(has_compact_prefix(v0));
                let n = choose|n: u64| is_prefix(#[trigger] encode_compact(n), v0);
                lemma_compact_prefix_unique(n, p.0, v0);
            }
        } else {
            out = encode_compact_u64(1);
            proof {
                assert(has_compact_prefix(v0));
                let n = choose|n: u64| is_prefix(#[trigger] encode_compact(n), v0);
                lemma_compact_prefix_unique(n, p.0, v0);
            }
        }
    } else {
        out = encode_compact_u64(1);
    }
    push_all(&mut out, to_add);
    *value = out;
}

/// The append law: a well-formed value holding `n` elements comes out
/// holding the same payload with one element appended and the count `n + 1`,
/// for every count, including those at a width boundary of the compact
/// encoding.
pub proof fn lemma_append_encodes(n: u64, payload: Seq<u8>, e: Seq<u8>)
    requires
        n < u64::MAX,
    ensures
        appended_value(encode_compact(n) + payload, e) == encode_compact((n + 1) as u64) + payload
            + e,
{
    let v = encode_compact(n) + payload;
    assert(is_prefix(encode_compact(n), v)) by {
        assert(encode_compact(n) =~= v.subrange(0, encode_compact(n).len() as int));
    }
    assert(has_compact_prefix(v));
    let m = choose|m: u64| is_prefix(#[trigger] encode_compact(m), v);
    lemma_compact_prefix_unique(m, n, v);
    assert(v.skip(compact_width(n)) =~= payload) by {
        crate::codec::lemma_encode_len(n);
    }
}

/// The reset law: a value with no canonical compact count comes out as the
/// one-element sequence holding exactly `e`.
pub proof fn lemma_append_malformed(v: Seq<u8>, e: Seq<u8>)
    requires
        !has_compact_prefix(v),
    ensures
        appended_value(v, e) == encode_compact(1) + e,
{
}

} // verus!
