//! The byte-level model of page fields: big-endian fixed-width integers,
//! two's-complement signed values, and in-place stores into a byte sequence.

use vstd::prelude::*;

verus! {

/// Number of distinct values of a field `w` bytes wide.
pub open spec fn pow256(w: nat) -> nat
    decreases w,
{
    if w == 0 {
        1
    } else {
        256 * pow256((w - 1) as nat)
    }
}

/// The big-endian bytes of `v`, `w` bytes wide, most significant byte first.
pub open spec fn be_bytes(v: nat, w: nat) -> Seq<u8>
    decreases w,
{
    if w == 0 {
        Seq::empty()
    } else {
        be_bytes(v / 256, (w - 1) as nat).push((v % 256) as u8)
    }
}

/// The value of a big-endian byte sequence.
pub open spec fn be_val(s: Seq<u8>) -> nat
    decreases s.len(),
{
    if s.len() == 0 {
        0
    } else {
        be_val(s.drop_last()) * 256 + s.last() as nat
    }
}

/// The unsigned field value holding the signed value `v` in a `w`-byte
/// two's-complement representation.
pub open spec fn to_unsigned(v: int, w: nat) -> nat {
    if v >= 0 {
        v as nat
    } else {
        (v + pow256(w)) as nat
    }
}

/// The signed value of a `w`-byte two's-complement field value `u`.
pub open spec fn to_signed(u: nat, w: nat) -> int {
    if u < pow256(w) / 2 {
        u as int
    } else {
        u - pow256(w)
    }
}

/// `s` with the bytes starting at `offset` replaced by `field`.
pub open spec fn store(s: Seq<u8>, offset: int, field: Seq<u8>) -> Seq<u8> {
    s.subrange(0, offset) + field + s.subrange(offset + field.len(), s.len() as int)
}

/// The length-prefixed encoding of a byte string: a 4-byte big-endian length,
/// then the raw payload.
pub open spec fn len_prefixed(b: Seq<u8>) -> Seq<u8> {
    be_bytes(b.len(), 4) + b
}

/// The payload length recorded at `offset`: the 4-byte field read back as a
/// signed big-endian integer.
pub open spec fn stored_field_len(s: Seq<u8>, offset: int) -> int {
    to_signed(be_val(s.subrange(offset, offset + 4)), 4)
}

/// Whether a well-formed length-prefixed field lies at `offset`: the length
/// field is inside the buffer, nonnegative, and the payload fits too.
pub open spec fn bytes_field_fits(s: Seq<u8>, offset: int) -> bool {
    &&& 0 <= offset
    &&& offset + 4 <= s.len()
    &&& 0 <= stored_field_len(s, offset)
    &&& offset + 4 + stored_field_len(s, offset) <= s.len()
}

/// The payload of the length-prefixed field at `offset`.
pub open spec fn bytes_field(s: Seq<u8>, offset: int) -> Seq<u8> {
    s.subrange(offset + 4, offset + 4 + stored_field_len(s, offset))
}

pub proof fn lemma_pow256_positive(w: nat)
    ensures
        pow256(w) >= 1,
    decreases w,
{
    if w > 0 {
        lemma_pow256_positive((w - 1) as nat);
    }
}

pub proof fn lemma_pow256_monotonic(v: nat, w: nat)
    requires
        v <= w,
    ensures
        pow256(v) <= pow256(w),
    decreases w,
{
    if v < w {
        lemma_pow256_monotonic(v, (w - 1) as nat);
        lemma_pow256_positive((w - 1) as nat);
    }
}

pub proof fn lemma_pow256_values()
    ensures
        pow256(1) == 0x100,
        pow256(2) == 0x1_0000,
        pow256(4) == 0x1_0000_0000,
        pow256(8) == 0x1_0000_0000_0000_0000,
{
    reveal_with_fuel(pow256, 9);
}

pub proof fn lemma_be_bytes_len(v: nat, w: nat)
    ensures
        be_bytes(v, w).len() == w,
    decreases w,
{
    if w > 0 {
        lemma_be_bytes_len(v / 256, (w - 1) as nat);
    }
}

/// A `w`-byte big-endian field reads back as the value it was written from.
pub proof fn lemma_be_roundtrip(v: nat, w: nat)
    requires
        v < pow256(w),
    ensures
        be_bytes(v, w).len() == w,
        be_val(be_bytes(v, w)) == v,
    decreases w,
{
    lemma_be_bytes_len(v, w);
    if w > 0 {
        assert(pow256(w) == 256 * pow256((w - 1) as nat));
        assert(v / 256 < pow256((w - 1) as nat)) by {
            lemma_pow256_positive((w - 1) as nat);
            assert(v < 256 * pow256((w - 1) as nat));
            assert(v / 256 < pow256((w - 1) as nat)) by (nonlinear_arith)
                requires
                    v < 256 * pow256((w - 1) as nat),
                    pow256((w - 1) as nat) >= 1,
            ;
        }
        lemma_be_roundtrip(v / 256, (w - 1) as nat);
        let s = be_bytes(v, w);
        assert(s.drop_last() =~= be_bytes(v / 256, (w - 1) as nat));
        assert(s.last() == (v % 256) as u8);
        assert(be_val(s) == (v / 256) * 256 + v % 256);
        assert(v == (v / 256) * 256 + v % 256) by (nonlinear_arith);
    }
}

/// Every big-endian byte sequence denotes a value below `pow256` of its width.
pub proof fn lemma_be_val_bound(s: Seq<u8>)
    ensures
        be_val(s) < pow256(s.len()),
    decreases s.len(),
{
    if s.len() == 0 {
    } else {
        lemma_be_val_bound(s.drop_last());
        assert(pow256(s.len()) == 256 * pow256((s.len() - 1) as nat));
    }
}

/// A one-byte big-endian field is the byte itself.
pub proof fn lemma_be_val_single(s: Seq<u8>, offset: int)
    requires
        0 <= offset < s.len(),
    ensures
        be_val(s.subrange(offset, offset + 1)) == s[offset],
{
    reveal_with_fuel(be_val, 2);
    let t = s.subrange(offset, offset + 1);
    assert(t.drop_last() =~= Seq::<u8>::empty());
    assert(t.last() == s[offset]);
    assert(be_val(t) == be_val(t.drop_last()) * 256 + t.last() as nat);
}

/// A stored field occupies exactly its own bytes: the rest of the sequence
/// is unchanged, and the field reads back as itself.
pub proof fn lemma_store_frame(s: Seq<u8>, offset: int, field: Seq<u8>)
    requires
        0 <= offset,
        offset + field.len() <= s.len(),
    ensures
        store(s, offset, field).len() == s.len(),
        store(s, offset, field).subrange(offset, offset + field.len()) == field,
        forall|j: int|
            0 <= j < s.len() && !(offset <= j < offset + field.len()) ==> store(s, offset, field)[j]
                == s[j],
{
    let t = store(s, offset, field);
    assert(t.subrange(offset, offset + field.len()) =~= field);
}

/// Law: writing a `w`-byte big-endian field and reading it back yields the
/// value written, for every legal offset.
pub proof fn lemma_set_get_roundtrip(s: Seq<u8>, offset: int, v: nat, w: nat)
    requires
        0 <= offset,
        offset + w <= s.len(),
        v < pow256(w),
    ensures
        be_val(store(s, offset, be_bytes(v, w)).subrange(offset, offset + w)) == v,
{
    lemma_be_roundtrip(v, w);
    lemma_store_frame(s, offset, be_bytes(v, w));
}

/// The big-endian bytes of `v`, `w` bytes wide, as a vector.
pub fn be_encode(v: u64, w: usize) -> (r: Vec<u8>)
    requires
        w <= 8,
    ensures
        r@ == be_bytes(v as nat, w as nat),
    decreases w,
{
    if w == 0 {
        Vec::new()
    } else {
        let mut r = be_encode(v / 256, w - 1);
        r.push((v % 256) as u8);
        r
    }
}

/// The value of a big-endian byte slice of at most 8 bytes.
pub fn be_decode(s: &[u8]) -> (r: u64)
    requires
        s@.len() <= 8,
    ensures
        r as nat == be_val(s@),
{
    let n = s.len();
    let mut acc: u64 = 0;
    let mut i: usize = 0;
    while i < n
        invariant
            0 <= i <= n,
            n == s@.len(),
            n <= 8,
            acc as nat == be_val(s@.subrange(0, i as int)),
        decreases n - i,
    {
        proof {
            lemma_be_val_bound(s@.subrange(0, i as int));
            lemma_pow256_monotonic(i as nat, 7);
            lemma_pow256_values();
        }
        acc = acc * 256 + (s[i] as u64);
        proof {
            assert(s@.subrange(0, i as int + 1).drop_last() =~= s@.subrange(0, i as int));
            assert(s@.subrange(0, i as int + 1).last() == s@[i as int]);
        }
        i += 1;
    }
    proof {
        assert(s@.subrange(0, n as int) =~= s@);
    }
    acc
}

/// Law: a signed value survives the trip through its two's-complement field.
pub proof fn lemma_signed_roundtrip(v: int, w: nat)
    requires
        w >= 1,
        -(pow256(w) / 2) <= v < pow256(w) / 2,
    ensures
        to_unsigned(v, w) < pow256(w),
        to_signed(to_unsigned(v, w), w) == v,
{
    lemma_pow256_positive(w);
}

/// Law: a byte string written where it fits, length prefix and payload, reads
/// back unchanged, and the rest of the buffer keeps its bytes.
pub proof fn lemma_bytes_field_roundtrip(s: Seq<u8>, offset: int, b: Seq<u8>)
    requires
        0 <= offset,
        offset + 4 + b.len() <= s.len(),
        b.len() <= 0x7fff_ffff,
    ensures
        bytes_field_fits(store(s, offset, len_prefixed(b)), offset),
        bytes_field(store(s, offset, len_prefixed(b)), offset) == b,
        stored_field_len(store(s, offset, len_prefixed(b)), offset) == b.len(),
        forall|j: int|
            0 <= j < s.len() && !(offset <= j < offset + 4 + b.len()) ==> store(
                s,
                offset,
                len_prefixed(b),
            )[j] == s[j],
{
    lemma_pow256_values();
    lemma_be_bytes_len(b.len(), 4);
    lemma_be_roundtrip(b.len(), 4);
    let f = len_prefixed(b);
    let t = store(s, offset, f);
    lemma_store_frame(s, offset, f);
    assert(t.subrange(offset, offset + 4) =~= f.subrange(0, 4));
    assert(f.subrange(0, 4) =~= be_bytes(b.len(), 4));
    assert(stored_field_len(t, offset) == to_signed(b.len(), 4));
    assert(bytes_field(t, offset) =~= b);
}

/// Law: text written where its UTF-8 bytes fit reads back as the same
/// character sequence once decoded.
pub proof fn lemma_string_field_roundtrip(s: Seq<u8>, offset: int, t: Seq<char>)
    requires
        0 <= offset,
        offset + 4 + vstd::utf8::encode_utf8(t).len() <= s.len(),
        vstd::utf8::encode_utf8(t).len() <= 0x7fff_ffff,
    ensures
        bytes_field_fits(store(s, offset, len_prefixed(vstd::utf8::encode_utf8(t))), offset),
        bytes_field(store(s, offset, len_prefixed(vstd::utf8::encode_utf8(t))), offset)
            == vstd::utf8::encode_utf8(t),
        vstd::utf8::valid_utf8(vstd::utf8::encode_utf8(t)),
        vstd::utf8::decode_utf8(vstd::utf8::encode_utf8(t)) == t,
{
    lemma_bytes_field_roundtrip(s, offset, vstd::utf8::encode_utf8(t));
    vstd::utf8::encode_utf8_valid_utf8(t);
    vstd::utf8::encode_utf8_decode_utf8(t);
}

/// Law: UTF-8 encoding is injective — two texts with the same bytes are the
/// same text. With this, a decoded string field determines its text uniquely.
pub proof fn lemma_utf8_injective(a: Seq<char>, b: Seq<char>)
    requires
        vstd::utf8::encode_utf8(a) == vstd::utf8::encode_utf8(b),
    ensures
        a == b,
{
    vstd::utf8::encode_utf8_decode_utf8(a);
    vstd::utf8::encode_utf8_decode_utf8(b);
}

} // verus!
