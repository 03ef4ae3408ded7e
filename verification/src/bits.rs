//! Mathematical model of bit streams: single bits of bytes and words, the
//! LSB-first bit sequence of a value, the value of a bit sequence, and the
//! way a packed byte buffer is read backwards from its end.
use vstd::prelude::*;

verus! {

/// Bit `i` (0 = least significant) of a byte.
pub open spec fn byte_bit(b: u8, i: u8) -> bool {
    (b >> i) & 1u8 == 1u8
}

/// Bit `i` (0 = least significant) of a 64-bit word.
pub open spec fn word_bit(v: u64, i: u64) -> bool {
    (v >> i) & 1u64 == 1u64
}

/// The word whose lowest `n` bits are set (all bits when `n >= 64`).
pub open spec fn low_mask(n: u64) -> u64 {
    if n >= 64 {
        0xffff_ffff_ffff_ffffu64
    } else {
        ((1u64 << n) - 1u64) as u64
    }
}

/// The lowest `n` bits of `v`, least significant first (bits past 63 are 0).
pub open spec fn low_bits(v: u64, n: nat) -> Seq<bool> {
    Seq::new(n, |i: int| i < 64 && word_bit(v, i as u64))
}

/// The word whose bit `i` is `s[i]` for every `i < 64`; later entries are ignored.
pub open spec fn bits_to_u64(s: Seq<bool>) -> u64
    decreases s.len(),
{
    if s.len() == 0 {
        0u64
    } else {
        let init = bits_to_u64(s.drop_last());
        if s.last() && s.len() <= 64 {
            init | (1u64 << ((s.len() - 1) as u64))
        } else {
            init
        }
    }
}

/// Number of bytes needed to hold `n` bits.
pub open spec fn byte_len(n: nat) -> nat {
    (n + 7) / 8
}

/// Bit `k` of the bit-packed region at the end of `data`: bit `k % 8` of the
/// byte `k / 8` places before the last one.
pub open spec fn stream_bit(data: Seq<u8>, k: int) -> bool {
    byte_bit(data[data.len() - 1 - k / 8], (k % 8) as u8)
}

/// The `n` bits of the region at the end of `data` that start at bit `start`.
pub open spec fn stream_bits(data: Seq<u8>, start: int, n: nat) -> Seq<bool> {
    Seq::new(n, |i: int| stream_bit(data, start + i))
}

/// `out` is exactly the bit-packed region for `bits`: it has one byte per
/// started group of 8 bits, bit `k` read from the end is `bits[k]`, and the
/// padding bits of the last group are 0.
pub open spec fn encodes_bits(out: Seq<u8>, bits: Seq<bool>) -> bool {
    &&& out.len() == byte_len(bits.len())
    &&& forall|k: int|
        0 <= k < 8 * out.len() ==> #[trigger] stream_bit(out, k) == (k < bits.len() && bits[k])
}

// ---------------------------------------------------------------------------
// Bit-vector facts about single bytes and words.

/// Setting bit `off` of a byte changes that bit only.
pub proof fn lemma_set_bit(old: u8, off: u8, j: u8)
    requires
        off < 8,
        j < 8,
    ensures
        byte_bit(old | (1u8 << off), j) == (byte_bit(old, j) || j == off),
{
    assert(byte_bit(old | (1u8 << off), j) == (byte_bit(old, j) || j == off)) by (bit_vector)
        requires
            off < 8,
            j < 8,
    ;
}

/// Testing a byte against a one-bit mask reads that bit.
pub proof fn lemma_test_bit(b: u8, off: u8)
    requires
        off < 8,
    ensures
        (b & (1u8 << off) != 0u8) == byte_bit(b, off),
{
    assert((b & (1u8 << off) != 0u8) == byte_bit(b, off)) by (bit_vector)
        requires
            off < 8,
    ;
}

/// OR-ing a chunk of `cs` bits of `value` (starting at bit `written`) into a
/// byte at bit offset `off` places those bits at `off .. off + cs`.
pub proof fn lemma_or_chunk(old: u8, value: u64, written: u64, off: u64, cs: u64, j: u64)
    requires
        off < 8,
        1 <= cs,
        off + cs <= 8,
        written + cs <= 64,
        j < 8,
    ensures
        ({
            let chunk = ((value >> written) & (((1u64 << cs) - 1u64) as u64)) as u8;
            let nb = old | ((chunk << (off as u8)) as u8);
            byte_bit(nb, j as u8) == if off <= j < off + cs {
                byte_bit(old, j as u8) || word_bit(value, (written + j - off) as u64)
            } else {
                byte_bit(old, j as u8)
            }
        }),
{
    assert({
        let chunk = ((value >> written) & (((1u64 << cs) - 1u64) as u64)) as u8;
        let nb = old | ((chunk << (off as u8)) as u8);
        byte_bit(nb, j as u8) == if off <= j < off + cs {
            byte_bit(old, j as u8) || word_bit(value, (written + j - off) as u64)
        } else {
            byte_bit(old, j as u8)
        }
    }) by (bit_vector)
        requires
            off < 8,
            1 <= cs,
            off + cs <= 8,
            written + cs <= 64,
            j < 8,
    ;
}

/// Reading a byte with a one-bit mask after shifting: the chunk of `cs` bits
/// of `b` from offset `off` grows by one bit at a time.
proof fn lemma_byte_chunk_step(b: u8, off: u64, cs: u64)
    requires
        off + cs < 8,
    ensures
        (((b >> (off as u8)) & (((1u16 << (cs + 1) as u16) - 1u16) as u8)) as u64) == ((((b >> (
        off as u8)) & (((1u16 << cs as u16) - 1u16) as u8)) as u64) | (if byte_bit(
            b,
            (off + cs) as u8,
        ) {
            1u64 << cs
        } else {
            0u64
        })),
{
    assert((((b >> (off as u8)) & (((1u16 << (cs + 1) as u16) - 1u16) as u8)) as u64) == ((((b >> (
    off as u8)) & (((1u16 << cs as u16) - 1u16) as u8)) as u64) | (if (b >> ((off + cs) as u8))
        & 1u8 == 1u8 {
        1u64 << cs
    } else {
        0u64
    }))) by (bit_vector)
        requires
            off + cs < 8,
    ;
}

/// Appending one set bit at position `a + c` after a shifted value.
proof fn lemma_or_shift_step(x: u64, y: u64, a: u64, c: u64)
    requires
        a + c < 64,
    ensures
        (x | (y << a)) | (1u64 << (a + c) as u64) == x | ((y | (1u64 << c)) << a),
{
    assert((x | (y << a)) | (1u64 << (a + c) as u64) == x | ((y | (1u64 << c)) << a))
        by (bit_vector)
        requires
            a + c < 64,
    ;
}

/// The value of the concatenation of two bit sequences.
pub proof fn lemma_bits_to_u64_append(s: Seq<bool>, t: Seq<bool>)
    requires
        s.len() + t.len() <= 64,
    ensures
        bits_to_u64(s + t) == bits_to_u64(s) | (bits_to_u64(t) << (s.len() as u64)),
    decreases t.len(),
{
    let a = s.len() as u64;
    if t.len() == 0 {
        assert(s + t =~= s);
        let x = bits_to_u64(s);
        assert(x | (0u64 << a) == x) by (bit_vector);
    } else {
        let t0 = t.drop_last();
        lemma_bits_to_u64_append(s, t0);
        assert((s + t).drop_last() =~= s + t0);
        assert((s + t).last() == t.last());
        let x = bits_to_u64(s);
        let y = bits_to_u64(t0);
        let c = t0.len() as u64;
        if t.last() {
            lemma_or_shift_step(x, y, a, c);
        }
    }
}

/// The `cs` bits of byte `b` starting at bit `off`.
pub open spec fn byte_chunk_bits(b: u8, off: nat, cs: nat) -> Seq<bool> {
    Seq::new(cs, |j: int| byte_bit(b, (off + j) as u8))
}

/// The value of `cs` consecutive bits of a byte is the shifted, masked byte.
pub proof fn lemma_byte_chunk_value(b: u8, off: nat, cs: nat)
    requires
        off + cs <= 8,
    ensures
        bits_to_u64(byte_chunk_bits(b, off, cs)) == (((b >> (off as u8)) & (((1u16 << cs as u16)
            - 1u16) as u8)) as u64),
    decreases cs,
{
    if cs == 0 {
        let o = off as u8;
        assert((((b >> o) & (((1u16 << 0u16) - 1u16) as u8)) as u64) == 0u64) by (bit_vector);
        assert(byte_chunk_bits(b, off, cs) =~= Seq::<bool>::empty());
    } else {
        let c = (cs - 1) as nat;
        lemma_byte_chunk_value(b, off, c);
        assert(byte_chunk_bits(b, off, cs).drop_last() =~= byte_chunk_bits(b, off, c));
        lemma_byte_chunk_step(b, off as u64, c as u64);
        let s = byte_chunk_bits(b, off, cs);
        assert(s.last() == byte_bit(b, (off + c) as u8));
        assert(bits_to_u64(s) == if byte_bit(b, (off + c) as u8) {
            bits_to_u64(byte_chunk_bits(b, off, c)) | (1u64 << (c as u64))
        } else {
            bits_to_u64(byte_chunk_bits(b, off, c))
        });
        let x = bits_to_u64(byte_chunk_bits(b, off, c));
        assert(x | 0u64 == x) by (bit_vector);
    }
}

/// The value of the lowest `n` bits of `v` is `v` with all higher bits cleared.
pub proof fn lemma_low_bits_value(v: u64, n: nat)
    requires
        n <= 64,
    ensures
        bits_to_u64(low_bits(v, n)) == v & low_mask(n as u64),
    decreases n,
{
    if n == 0 {
        assert(low_bits(v, n) =~= Seq::<bool>::empty());
        assert(v & (((1u64 << 0u64) - 1u64) as u64) == 0u64) by (bit_vector);
    } else {
        let m = (n - 1) as nat;
        lemma_low_bits_value(v, m);
        assert(low_bits(v, n).drop_last() =~= low_bits(v, m));
        let mm = m as u64;
        let s = low_bits(v, n);
        assert(s.last() == word_bit(v, mm));
        assert(bits_to_u64(s) == if word_bit(v, mm) {
            bits_to_u64(low_bits(v, m)) | (1u64 << mm)
        } else {
            bits_to_u64(low_bits(v, m))
        });
        let x = bits_to_u64(low_bits(v, m));
        assert(x | 0u64 == x) by (bit_vector);
        if n < 64 {
            assert((v & (((1u64 << mm) - 1u64) as u64)) | (if (v >> mm) & 1u64 == 1u64 {
                1u64 << mm
            } else {
                0u64
            }) == v & (((1u64 << (mm + 1) as u64) - 1u64) as u64)) by (bit_vector)
                requires
                    mm < 63,
            ;
        } else {
            assert((v & (((1u64 << mm) - 1u64) as u64)) | (if (v >> mm) & 1u64 == 1u64 {
                1u64 << mm
            } else {
                0u64
            }) == v & 0xffff_ffff_ffff_ffffu64) by (bit_vector)
                requires
                    mm == 63,
            ;
        }
    }
}

/// A value below `2^n` is its own lowest `n` bits.
pub proof fn lemma_low_mask_small(v: u64, n: u64)
    requires
        n <= 64,
        n < 64 ==> v < (1u64 << n),
    ensures
        v & low_mask(n) == v,
{
    if n < 64 {
        assert(v < (1u64 << n) ==> v & (((1u64 << n) - 1u64) as u64) == v) by (bit_vector)
            requires
                n < 64,
        ;
    } else {
        assert(v & 0xffff_ffff_ffff_ffffu64 == v) by (bit_vector);
    }
}

} // verus!
