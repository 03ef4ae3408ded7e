//! Field codecs of the data region: big-endian integers, length prefixes,
//! byte strings, UTF-8 strings and fixed-size byte arrays, together with
//! enum tags read from the bit-packed region.
//!
//! Every writer appends to the data region; every reader takes the encoded
//! message and a cursor into it, and returns the decoded value with the
//! cursor moved past it.
use vstd::prelude::*;
use vstd::utf8::{decode_utf8, encode_utf8, valid_utf8};

use crate::bits::{bits_to_u64, stream_bits};
use crate::decode_helper::DecodeHelper;
use crate::error::DecodeError;

verus! {

/// Largest length prefix that decoding accepts (16 MiB).
pub const MAX_DECODE_LEN: usize = 16777216usize;

/// `256^w`.
pub open spec fn pow256(w: nat) -> nat
    decreases w,
{
    if w == 0 {
        1
    } else {
        256 * pow256((w - 1) as nat)
    }
}

/// The `w` big-endian bytes of `v` (higher bytes of `v` are dropped).
pub open spec fn be_bytes(v: nat, w: nat) -> Seq<u8>
    decreases w,
{
    if w == 0 {
        Seq::empty()
    } else {
        be_bytes(v / 256, (w - 1) as nat).push((v % 256) as u8)
    }
}

/// The number whose big-endian bytes are `s`.
pub open spec fn be_value(s: Seq<u8>) -> nat
    decreases s.len(),
{
    if s.len() == 0 {
        0
    } else {
        be_value(s.drop_last()) * 256 + s.last() as nat
    }
}

/// A byte string field: its length as a `lb`-byte big-endian prefix, then
/// the bytes.
pub open spec fn bytes_field(b: Seq<u8>, lb: nat) -> Seq<u8> {
    be_bytes(b.len(), lb) + b
}

/// A string field: its UTF-8 length as a `lb`-byte big-endian prefix, then
/// its UTF-8 bytes.
pub open spec fn string_field(s: Seq<char>, lb: nat) -> Seq<u8> {
    bytes_field(encode_utf8(s), lb)
}

/// Reading a `w`-byte big-endian number at `idx`.
pub open spec fn read_uint_spec(data: Seq<u8>, idx: int, w: nat) -> Result<(nat, int), DecodeError> {
    if idx + w > data.len() {
        Err(DecodeError::UnexpectedEof)
    } else {
        Ok((be_value(data.subrange(idx, idx + w)), idx + w))
    }
}

/// Reading a `lb`-byte length prefix at `idx`: lengths above
/// [`MAX_DECODE_LEN`] are refused.
pub open spec fn read_len_prefix_spec(data: Seq<u8>, idx: int, lb: nat) -> Result<
    (nat, int),
    DecodeError,
> {
    match read_uint_spec(data, idx, lb) {
        Err(e) => Err(e),
        Ok((n, j)) => if n > MAX_DECODE_LEN {
            Err(DecodeError::LengthTooLarge)
        } else {
            Ok((n, j))
        },
    }
}

/// Reading `n` raw bytes at `idx`.
pub open spec fn read_raw_spec(data: Seq<u8>, idx: int, n: nat) -> Result<(Seq<u8>, int), DecodeError> {
    if idx + n > data.len() {
        Err(DecodeError::UnexpectedEof)
    } else {
        Ok((data.subrange(idx, idx + n), idx + n))
    }
}

/// Reading a byte string field with a `lb`-byte length prefix at `idx`.
pub open spec fn read_bytes_spec(data: Seq<u8>, idx: int, lb: nat) -> Result<
    (Seq<u8>, int),
    DecodeError,
> {
    match read_len_prefix_spec(data, idx, lb) {
        Err(e) => Err(e),
        Ok((n, j)) => read_raw_spec(data, j, n),
    }
}

/// Reading a string field with a `lb`-byte length prefix at `idx`.
pub open spec fn read_string_spec(data: Seq<u8>, idx: int, lb: nat) -> Result<
    (Seq<char>, int),
    DecodeError,
> {
    match read_bytes_spec(data, idx, lb) {
        Err(e) => Err(e),
        Ok((b, j)) => if valid_utf8(b) {
            Ok((decode_utf8(b), j))
        } else {
            Err(DecodeError::InvalidUtf8)
        },
    }
}

/// The allowed widths of a length prefix.
pub open spec fn is_len_bytes(lb: nat) -> bool {
    lb == 1 || lb == 2 || lb == 4
}

// ---------------------------------------------------------------------------
// Arithmetic facts.

/// `be_bytes` has the requested width.
pub proof fn lemma_be_bytes_len(v: nat, w: nat)
    ensures
        be_bytes(v, w).len() == w,
    decreases w,
{
    if w > 0 {
        lemma_be_bytes_len(v / 256, (w - 1) as nat);
    }
}

/// The big-endian value of `w` bytes is below `256^w`.
pub proof fn lemma_be_value_bound(s: Seq<u8>)
    ensures
        be_value(s) < pow256(s.len()),
    decreases s.len(),
{
    if s.len() > 0 {
        lemma_be_value_bound(s.drop_last());
    }
}

/// Reading back the big-endian bytes of a value that fits gives the value.
pub proof fn lemma_be_roundtrip(v: nat, w: nat)
    requires
        v < pow256(w),
    ensures
        be_value(be_bytes(v, w)) == v,
    decreases w,
{
    if w > 0 {
        lemma_be_roundtrip(v / 256, (w - 1) as nat);
        lemma_be_bytes_len(v / 256, (w - 1) as nat);
        assert(be_bytes(v, w).drop_last() =~= be_bytes(v / 256, (w - 1) as nat));
    }
}

/// Concrete powers used by the codecs.
pub proof fn lemma_pow256_values()
    ensures
        pow256(1) == 0x100,
        pow256(2) == 0x1_0000,
        pow256(4) == 0x1_0000_0000,
        pow256(8) == 0x1_0000_0000_0000_0000,
        pow256(16) == 0x1_0000_0000_0000_0000_0000_0000_0000_0000,
{
    reveal_with_fuel(pow256, 17);
}

/// `256^w` grows with `w`.
pub proof fn lemma_pow256_monotonic(a: nat, b: nat)
    requires
        a <= b,
    ensures
        pow256(a) <= pow256(b),
    decreases b,
{
    if a < b {
        lemma_pow256_monotonic(a, (b - 1) as nat);
    }
}

// ---------------------------------------------------------------------------
// Writers of the data region.

/// Append the `width` big-endian bytes of `value` (the byte layout of
/// `to_be_bytes` of an integer of that width).
pub fn write_uint(data: &mut Vec<u8>, value: u128, width: usize)
    requires
        width <= 16,
    ensures
        final(data)@ == old(data)@ + be_bytes(value as nat, width as nat),
{
    let mut buf: Vec<u8> = Vec::new();
    let mut k: usize = 0;
    while k < width
        invariant
            k <= width,
            buf@.len() == k,
        decreases width - k,
    {
        buf.push(0u8);
        k = k + 1;
    }
    let mut cur: u128 = value;
    let mut i: usize = 0;
    while i < width
        invariant
            i <= width <= 16,
            buf@.len() == width,
            be_bytes(value as nat, width as nat) == be_bytes(cur as nat, (width - i) as nat)
                + buf@.subrange((width - i) as int, width as int),
        decreases width - i,
    {
        let ghost before = buf@;
        let byte = (cur % 256) as u8;
        buf.set(width - 1 - i, byte);
        proof {
            let r = (width - i) as nat;
            lemma_be_bytes_len(cur as nat / 256, (r - 1) as nat);
            assert(be_bytes(cur as nat, r) == be_bytes(cur as nat / 256, (r - 1) as nat).push(
                byte,
            ));
            assert(be_bytes(cur as nat / 256, (r - 1) as nat) + buf@.subrange(
                (width - i - 1) as int,
                width as int,
            ) =~= be_bytes(cur as nat, r) + before.subrange((width - i) as int, width as int));
        }
        cur = cur / 256;
        i = i + 1;
    }
    assert(buf@.subrange(0, width as int) =~= buf@);
    let mut j: usize = 0;
    let ghost start = data@;
    while j < width
        invariant
            j <= width,
            buf@.len() == width,
            data@ == start + buf@.subrange(0, j as int),
        decreases width - j,
    {
        data.push(buf[j]);
        j = j + 1;
        assert(data@ =~= start + buf@.subrange(0, j as int));
    }
}

/// Append a length prefix of `len_bytes` big-endian bytes.
///
/// The length must fit the prefix: a longer string, byte string or list
/// cannot be encoded (`try_encode_message` reports it with `None`).
pub fn write_len_prefix(data: &mut Vec<u8>, len: usize, len_bytes: usize)
    requires
        is_len_bytes(len_bytes as nat),
        len < pow256(len_bytes as nat),
    ensures
        final(data)@ == old(data)@ + be_bytes(len as nat, len_bytes as nat),
{
    write_uint(data, len as u128, len_bytes);
}

/// Append `bytes` unchanged (a fixed-size byte array).
pub fn write_raw(data: &mut Vec<u8>, bytes: &[u8])
    ensures
        final(data)@ == old(data)@ + bytes@,
{
    let ghost start = data@;
    let mut j: usize = 0;
    while j < bytes.len()
        invariant
            j <= bytes@.len(),
            data@ == start + bytes@.subrange(0, j as int),
        decreases bytes@.len() - j,
    {
        data.push(bytes[j]);
        j = j + 1;
        assert(data@ =~= start + bytes@.subrange(0, j as int));
    }
    assert(bytes@.subrange(0, bytes@.len() as int) =~= bytes@);
}

/// Append a byte string field: a `len_bytes`-byte length prefix, then the
/// bytes.
pub fn write_bytes(data: &mut Vec<u8>, bytes: &[u8], len_bytes: usize)
    requires
        is_len_bytes(len_bytes as nat),
        bytes@.len() < pow256(len_bytes as nat),
    ensures
        final(data)@ == old(data)@ + bytes_field(bytes@, len_bytes as nat),
{
    write_len_prefix(data, bytes.len(), len_bytes);
    write_raw(data, bytes);
    assert(final(data)@ =~= old(data)@ + bytes_field(bytes@, len_bytes as nat));
}

/// Append a string field: a `len_bytes`-byte prefix holding the UTF-8
/// length, then the UTF-8 bytes.
pub fn write_string(data: &mut Vec<u8>, s: &str, len_bytes: usize)
    requires
        is_len_bytes(len_bytes as nat),
        encode_utf8(s@).len() < pow256(len_bytes as nat),
    ensures
        final(data)@ == old(data)@ + string_field(s@, len_bytes as nat),
{
    let bytes = s.as_bytes();
    write_bytes(data, bytes, len_bytes);
}

// ---------------------------------------------------------------------------
// Readers of the data region.

/// `String::from_utf8`, with the error dropped.
///
/// Claims what the standard library documents: the conversion succeeds
/// exactly when the bytes are valid UTF-8, and the string then holds the
/// characters those bytes encode.
#[verifier::external_body]
fn string_from_utf8(bytes: Vec<u8>) -> (r: Option<String>)
    ensures
        r is Some <==> valid_utf8(bytes@),
        r matches Some(s) ==> s@ == decode_utf8(bytes@),
{
    String::from_utf8(bytes).ok()
}

/// Read a `width`-byte big-endian number at `idx` (the layout of
/// `from_be_bytes` of an integer of that width).
pub fn read_uint(data: &[u8], idx: usize, width: usize) -> (r: Result<(u128, usize), DecodeError>)
    requires
        width <= 16,
        idx <= data@.len(),
    ensures
        match r {
            Ok((v, j)) => read_uint_spec(data@, idx as int, width as nat) == Ok::<
                (nat, int),
                DecodeError,
            >((v as nat, j as int)),
            Err(e) => read_uint_spec(data@, idx as int, width as nat) == Err::<(nat, int), DecodeError>(e),
        },
{
    if width > data.len() - idx {
        return Err(DecodeError::UnexpectedEof);
    }
    let mut v: u128 = 0;
    let mut i: usize = 0;
    proof {
        lemma_pow256_values();
        assert(data@.subrange(idx as int, idx as int) =~= Seq::<u8>::empty());
    }
    while i < width
        invariant
            i <= width <= 16,
            idx + width <= data.len(),
            v == be_value(data@.subrange(idx as int, idx + i)),
            v < pow256(i as nat),
            pow256(16) == 0x1_0000_0000_0000_0000_0000_0000_0000_0000,
        decreases width - i,
    {
        let b = data[idx + i];
        proof {
            lemma_pow256_monotonic((i + 1) as nat, 16);
            assert(data@.subrange(idx as int, idx + i + 1).drop_last() =~= data@.subrange(
                idx as int,
                idx + i,
            ));
        }
        v = v * 256 + b as u128;
        i = i + 1;
    }
    proof {
        lemma_be_value_bound(data@.subrange(idx as int, idx + width));
        lemma_pow256_monotonic(width as nat, 16);
    }
    Ok((v, idx + width))
}

/// Read a `len_bytes`-byte length prefix at `idx`; lengths above
/// [`MAX_DECODE_LEN`] are refused with `LengthTooLarge`.
pub fn read_len_prefix(data: &[u8], idx: usize, len_bytes: usize) -> (r: Result<
    (usize, usize),
    DecodeError,
>)
    requires
        is_len_bytes(len_bytes as nat),
        idx <= data@.len(),
    ensures
        match r {
            Ok((n, j)) => read_len_prefix_spec(data@, idx as int, len_bytes as nat) == Ok::<
                (nat, int),
                DecodeError,
            >((n as nat, j as int)),
            Err(e) => read_len_prefix_spec(data@, idx as int, len_bytes as nat) == Err::<
                (nat, int),
                DecodeError,
            >(e),
        },
{
    let (n, j) = match read_uint(data, idx, len_bytes) {
        Ok(p) => p,
        Err(e) => return Err(e),
    };
    if n > MAX_DECODE_LEN as u128 {
        return Err(DecodeError::LengthTooLarge);
    }
    Ok((n as usize, j))
}

/// Read `n` raw bytes at `idx` (a fixed-size byte array).
pub fn read_raw(data: &[u8], idx: usize, n: usize) -> (r: Result<(Vec<u8>, usize), DecodeError>)
    requires
        idx <= data@.len(),
    ensures
        match r {
            Ok((v, k)) => read_raw_spec(data@, idx as int, n as nat) == Ok::<(Seq<u8>, int), DecodeError>(
                (v@, k as int),
            ),
            Err(e) => read_raw_spec(data@, idx as int, n as nat) == Err::<(Seq<u8>, int), DecodeError>(e),
        },
{
    if n > data.len() - idx {
        return Err(DecodeError::UnexpectedEof);
    }
    let mut out: Vec<u8> = Vec::new();
    let mut i: usize = 0;
    while i < n
        invariant
            i <= n,
            idx + n <= data.len(),
            out@ == data@.subrange(idx as int, idx + i),
        decreases n - i,
    {
        out.push(data[idx + i]);
        i = i + 1;
        assert(out@ =~= data@.subrange(idx as int, idx + i));
    }
    Ok((out, idx + n))
}

/// Read a byte string field with a `len_bytes`-byte length prefix at `idx`.
pub fn read_bytes(data: &[u8], idx: usize, len_bytes: usize) -> (r: Result<
    (Vec<u8>, usize),
    DecodeError,
>)
    requires
        is_len_bytes(len_bytes as nat),
        idx <= data@.len(),
    ensures
        match r {
            Ok((v, k)) => read_bytes_spec(data@, idx as int, len_bytes as nat) == Ok::<(Seq<u8>, int), DecodeError>(
                (v@, k as int),
            ),
            Err(e) => read_bytes_spec(data@, idx as int, len_bytes as nat) == Err::<(Seq<u8>, int), DecodeError>(e),
        },
{
    let (n, j) = match read_len_prefix(data, idx, len_bytes) {
        Ok(p) => p,
        Err(e) => return Err(e),
    };
    read_raw(data, j, n)
}

/// Read a string field with a `len_bytes`-byte length prefix at `idx`;
/// bytes that are not UTF-8 are refused with `InvalidUtf8`.
pub fn read_string(data: &[u8], idx: usize, len_bytes: usize) -> (r: Result<
    (String, usize),
    DecodeError,
>)
    requires
        is_len_bytes(len_bytes as nat),
        idx <= data@.len(),
    ensures
        match r {
            Ok((v, k)) => read_string_spec(data@, idx as int, len_bytes as nat) == Ok::<
                (Seq<char>, int),
                DecodeError,
            >((v@, k as int)),
            Err(e) => read_string_spec(data@, idx as int, len_bytes as nat) == Err::<
                (Seq<char>, int),
                DecodeError,
            >(e),
        },
{
    let (bytes, j) = match read_bytes(data, idx, len_bytes) {
        Ok(p) => p,
        Err(e) => return Err(e),
    };
    match string_from_utf8(bytes) {
        Some(s) => Ok((s, j)),
        None => Err(DecodeError::InvalidUtf8),
    }
}

// ---------------------------------------------------------------------------
// Enum tags.

/// The tag read from `bits` bits of the stream: the number they hold, cut to
/// its lowest byte.
pub open spec fn tag_of(data: Seq<u8>, start: int, bits: nat) -> u8 {
    (bits_to_u64(stream_bits(data, start, bits)) % 256) as u8
}

/// Read an enum tag of `bits` bits and check it against the number of
/// variants: tags at or past `n_variants` are refused with `UnknownTag`.
pub fn read_tag(helper: &mut DecodeHelper, data: &[u8], bits: usize, n_variants: usize) -> (r: Result<
    u8,
    DecodeError,
>)
    requires
        old(helper)@ + bits <= usize::MAX,
        8 * data@.len() <= usize::MAX,
        bits <= 64 || old(helper)@ + bits > 8 * data@.len(),
    ensures
        old(helper)@ + bits > 8 * data@.len() ==> r == Err::<u8, DecodeError>(
            DecodeError::UnexpectedEof,
        ) && final(helper)@ == old(helper)@,
        old(helper)@ + bits <= 8 * data@.len() ==> final(helper)@ == old(helper)@ + bits && r == (
        if (tag_of(data@, old(helper)@ as int, bits as nat) as nat) < n_variants {
            Ok::<u8, DecodeError>(tag_of(data@, old(helper)@ as int, bits as nat))
        } else {
            Err::<u8, DecodeError>(
                DecodeError::UnknownTag(tag_of(data@, old(helper)@ as int, bits as nat)),
            )
        }),
{
    let v = match helper.read_partly(data, bits) {
        Ok(v) => v,
        Err(e) => return Err(e),
    };
    let tag = (v % 256) as u8;
    if (tag as usize) < n_variants {
        Ok(tag)
    } else {
        Err(DecodeError::UnknownTag(tag))
    }
}

} // verus!
