//! Laws of the bit-packed region: what a reader gets back of what a writer
//! wrote.
use vstd::prelude::*;

use vstd::utf8::{encode_utf8, encode_utf8_decode_utf8, encode_utf8_valid_utf8};

use crate::codec::{
    be_bytes, bytes_field, is_len_bytes, pow256, read_bytes_spec, read_string_spec, read_uint_spec,
    string_field, tag_of, MAX_DECODE_LEN, lemma_be_bytes_len, lemma_be_roundtrip,
};
use crate::error::DecodeError;
use crate::bits::{
    bits_to_u64, byte_bit, encodes_bits, low_bits, low_mask, stream_bit, stream_bits,
    lemma_low_bits_value, lemma_low_mask_small,
};

verus! {

/// The bit-packed region is read from the end of the message: whatever data
/// region stands in front of it, the bits read from the end of the whole
/// message are the bits that were written.
pub proof fn lemma_bit_region_after_data(prefix: Seq<u8>, region: Seq<u8>, bits: Seq<bool>)
    requires
        encodes_bits(region, bits),
    ensures
        forall|start: int, n: nat|
            0 <= start && start + n <= bits.len() ==> #[trigger] stream_bits(prefix + region, start, n)
                == bits.subrange(start, start + n),
{
    assert forall|start: int, n: nat| 0 <= start && start + n <= bits.len() implies #[trigger] stream_bits(
        prefix + region,
        start,
        n,
    ) == bits.subrange(start, start + n) by {
        assert forall|i: int| 0 <= i < n implies #[trigger] stream_bits(prefix + region, start, n)[i]
            == bits.subrange(start, start + n)[i] by {
            let k = start + i;
            assert(k < 8 * region.len());
            assert(stream_bit(region, k) == bits[k]);
            assert((prefix + region)[(prefix + region).len() - 1 - k / 8] == region[region.len() - 1 - k
                / 8]);
        }
        assert(stream_bits(prefix + region, start, n) =~= bits.subrange(start, start + n));
    }
}

/// A single bit written between any earlier and later bits is read back
/// unchanged at its position.
pub proof fn lemma_bit_roundtrip(out: Seq<u8>, before: Seq<bool>, b: bool, after: Seq<bool>)
    requires
        encodes_bits(out, before.push(b) + after),
    ensures
        stream_bit(out, before.len() as int) == b,
{
    let all = before.push(b) + after;
    assert(all[before.len() as int] == b);
    assert(before.len() < 8 * out.len());
}

/// A value written with `write_partly(v, n)` between any earlier and later
/// bits is read back by `read_partly(n)` at its position as `v` with all bits
/// from `n` on cleared; a value below `2^n` is read back unchanged.
pub proof fn lemma_partly_roundtrip(
    out: Seq<u8>,
    before: Seq<bool>,
    v: u64,
    n: nat,
    after: Seq<bool>,
)
    requires
        encodes_bits(out, before + low_bits(v, n) + after),
        n <= 64,
    ensures
        bits_to_u64(stream_bits(out, before.len() as int, n)) == v & low_mask(n as u64),
        (n == 64 || v < (1u64 << n as u64)) ==> bits_to_u64(stream_bits(
            out,
            before.len() as int,
            n,
        )) == v,
{
    let all = before + low_bits(v, n) + after;
    assert(stream_bits(out, before.len() as int, n) =~= low_bits(v, n)) by {
        assert forall|i: int| 0 <= i < n implies #[trigger] stream_bits(out, before.len() as int, n)[i]
            == low_bits(v, n)[i] by {
            let k = before.len() + i;
            assert(all[k] == low_bits(v, n)[i]);
            assert(k < 8 * out.len());
        }
    }
    lemma_low_bits_value(v, n);
    if n == 64 || v < (1u64 << n as u64) {
        lemma_low_mask_small(v, n as u64);
    }
}

/// Reserved bits read back as 0.
pub proof fn lemma_reserved_bits_zero(out: Seq<u8>, before: Seq<bool>, r: nat, after: Seq<bool>)
    requires
        encodes_bits(out, before + Seq::new(r, |i: int| false) + after),
    ensures
        forall|i: int| 0 <= i < r ==> !#[trigger] stream_bit(out, before.len() + i),
{
    let all = before + Seq::new(r, |i: int| false) + after;
    assert forall|i: int| 0 <= i < r implies !#[trigger] stream_bit(out, before.len() + i) by {
        assert(all[before.len() + i] == false);
        assert(before.len() + i < 8 * out.len());
    }
}

/// The bit-packed region is determined by its bits: two outputs that encode
/// the same bits are equal.
pub proof fn lemma_encoding_unique(o1: Seq<u8>, o2: Seq<u8>, bits: Seq<bool>)
    requires
        encodes_bits(o1, bits),
        encodes_bits(o2, bits),
    ensures
        o1 == o2,
{
    assert forall|i: int| 0 <= i < o1.len() implies o1[i] == o2[i] by {
        let q = o1.len() - 1 - i;
        let x = o1[i];
        let y = o2[i];
        assert forall|j: u8| j < 8 implies #[trigger] byte_bit(x, j) == byte_bit(y, j) by {
            let k = 8 * q + j;
            assert(k / 8 == q);
            assert(k % 8 == j);
            assert(stream_bit(o1, k) == stream_bit(o2, k));
        }
        assert(byte_bit(x, 0u8) == byte_bit(y, 0u8));
        assert(byte_bit(x, 1u8) == byte_bit(y, 1u8));
        assert(byte_bit(x, 2u8) == byte_bit(y, 2u8));
        assert(byte_bit(x, 3u8) == byte_bit(y, 3u8));
        assert(byte_bit(x, 4u8) == byte_bit(y, 4u8));
        assert(byte_bit(x, 5u8) == byte_bit(y, 5u8));
        assert(byte_bit(x, 6u8) == byte_bit(y, 6u8));
        assert(byte_bit(x, 7u8) == byte_bit(y, 7u8));
        assert(x == y) by (bit_vector)
            requires
                ((x >> 0u8) & 1u8 == 1u8) == ((y >> 0u8) & 1u8 == 1u8),
                ((x >> 1u8) & 1u8 == 1u8) == ((y >> 1u8) & 1u8 == 1u8),
                ((x >> 2u8) & 1u8 == 1u8) == ((y >> 2u8) & 1u8 == 1u8),
                ((x >> 3u8) & 1u8 == 1u8) == ((y >> 3u8) & 1u8 == 1u8),
                ((x >> 4u8) & 1u8 == 1u8) == ((y >> 4u8) & 1u8 == 1u8),
                ((x >> 5u8) & 1u8 == 1u8) == ((y >> 5u8) & 1u8 == 1u8),
                ((x >> 6u8) & 1u8 == 1u8) == ((y >> 6u8) & 1u8 == 1u8),
                ((x >> 7u8) & 1u8 == 1u8) == ((y >> 7u8) & 1u8 == 1u8),
        ;
    }
    assert(o1 =~= o2);
}

/// A big-endian number written into the data region is read back at its
/// position, whatever stands before and after it, when it fits its width.
pub proof fn lemma_uint_roundtrip(pre: Seq<u8>, v: nat, w: nat, post: Seq<u8>)
    requires
        v < pow256(w),
    ensures
        read_uint_spec(pre + be_bytes(v, w) + post, pre.len() as int, w) == Ok::<(nat, int), DecodeError>(
            (v, (pre.len() + w) as int),
        ),
{
    lemma_be_bytes_len(v, w);
    lemma_be_roundtrip(v, w);
    let all = pre + be_bytes(v, w) + post;
    assert(all.subrange(pre.len() as int, (pre.len() + w) as int) =~= be_bytes(v, w));
}

/// A byte string written into the data region is read back at its position,
/// whatever stands before and after it, and the cursor moves past it.
pub proof fn lemma_bytes_roundtrip(pre: Seq<u8>, b: Seq<u8>, lb: nat, post: Seq<u8>)
    requires
        is_len_bytes(lb),
        b.len() < pow256(lb),
        b.len() <= MAX_DECODE_LEN,
    ensures
        read_bytes_spec(pre + bytes_field(b, lb) + post, pre.len() as int, lb) == Ok::<
            (Seq<u8>, int),
            DecodeError,
        >((b, (pre.len() + lb + b.len()) as int)),
{
    lemma_be_bytes_len(b.len(), lb);
    let all = pre + bytes_field(b, lb) + post;
    assert(all =~= pre + be_bytes(b.len(), lb) + (b + post));
    lemma_uint_roundtrip(pre, b.len(), lb, b + post);
    assert(all.subrange((pre.len() + lb) as int, (pre.len() + lb + b.len()) as int) =~= b);
}

/// A string written into the data region is read back at its position,
/// whatever stands before and after it, and the cursor moves past its UTF-8
/// bytes.
pub proof fn lemma_string_roundtrip(pre: Seq<u8>, s: Seq<char>, lb: nat, post: Seq<u8>)
    requires
        is_len_bytes(lb),
        encode_utf8(s).len() < pow256(lb),
        encode_utf8(s).len() <= MAX_DECODE_LEN,
    ensures
        read_string_spec(pre + string_field(s, lb) + post, pre.len() as int, lb) == Ok::<
            (Seq<char>, int),
            DecodeError,
        >((s, (pre.len() + lb + encode_utf8(s).len()) as int)),
{
    lemma_bytes_roundtrip(pre, encode_utf8(s), lb, post);
    encode_utf8_valid_utf8(s);
    encode_utf8_decode_utf8(s);
}

/// A length prefix above the decoding limit is refused with
/// `LengthTooLarge`, whatever follows it.
pub proof fn lemma_length_limit(pre: Seq<u8>, n: nat, lb: nat, post: Seq<u8>)
    requires
        is_len_bytes(lb),
        MAX_DECODE_LEN < n < pow256(lb),
    ensures
        read_bytes_spec(pre + be_bytes(n, lb) + post, pre.len() as int, lb) == Err::<
            (Seq<u8>, int),
            DecodeError,
        >(DecodeError::LengthTooLarge),
{
    lemma_uint_roundtrip(pre, n, lb, post);
}

/// An enum tag written with `write_partly(idx, bits)` is read back as `idx`
/// when it fits both the tag width and a byte.
pub proof fn lemma_tag_roundtrip(out: Seq<u8>, before: Seq<bool>, idx: u64, bits: nat, after: Seq<bool>)
    requires
        encodes_bits(out, before + low_bits(idx, bits) + after),
        bits <= 64,
        idx < 256,
        bits == 64 || idx < (1u64 << bits as u64),
    ensures
        tag_of(out, before.len() as int, bits) == idx,
{
    lemma_partly_roundtrip(out, before, idx, bits, after);
}

} // verus!
