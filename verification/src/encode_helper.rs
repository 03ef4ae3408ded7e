//! The writer of the bit-packed region.
use vstd::prelude::*;

use crate::bits::{byte_bit, byte_len, encodes_bits, low_bits, word_bit, lemma_set_bit, lemma_or_chunk};

verus! {

/// Helper for encoding bit-packed fields during serialization.
///
/// Bits are written in LSB-first order within each byte. After all fields
/// have been written, [`finish`](EncodeHelper::finish) returns the packed
/// bytes in reversed order, so that a decoder reads them from the end of the
/// encoded buffer.
pub struct EncodeHelper {
    data: Vec<u8>,
    bit_idx: usize,
}

impl View for EncodeHelper {
    /// The bits written so far, in the order they were written.
    type V = Seq<bool>;

    closed spec fn view(&self) -> Seq<bool> {
        Seq::new(self.bit_idx as nat, |k: int| byte_bit(self.data@[k / 8], (k % 8) as u8))
    }
}

/// No bit of the byte 0 is set.
proof fn lemma_zero_byte(j: u8)
    requires
        j < 8,
    ensures
        !byte_bit(0u8, j),
{
    assert(!byte_bit(0u8, j)) by (bit_vector)
        requires
            j < 8,
    ;
}

impl EncodeHelper {
    /// The helper holds one byte per started group of 8 bits, and every bit
    /// past the last written one is 0.
    pub closed spec fn wf(&self) -> bool {
        &&& self.data@.len() == byte_len(self.bit_idx as nat)
        &&& forall|k: int|
            self.bit_idx <= k < 8 * self.data@.len() ==> !#[trigger] byte_bit(
                self.data@[k / 8],
                (k % 8) as u8,
            )
    }

    /// An empty helper: no bits written.
    pub fn new() -> (helper: Self)
        ensures
            helper.wf(),
            helper@ == Seq::<bool>::empty(),
    {
        let helper = EncodeHelper { data: Vec::new(), bit_idx: 0 };
        assert(helper@ =~= Seq::<bool>::empty());
        helper
    }

    /// Returns `true` if any bits have been written to this helper.
    pub fn has_data(&self) -> (r: bool)
        requires
            self.wf(),
        ensures
            r == (self@.len() > 0),
    {
        self.data.len() != 0
    }

    /// The number of bits written so far (reserved bits included).
    pub fn bit_idx(&self) -> (r: usize)
        ensures
            r == self@.len(),
    {
        self.bit_idx
    }

    /// Advance the bit position by `bits`, writing zero bits.
    ///
    /// Used for `reserve_bits` on a type: the reserved bits read back as 0.
    pub fn reserve_bits(&mut self, bits: usize)
        requires
            old(self).wf(),
            old(self)@.len() + bits <= usize::MAX,
        ensures
            final(self).wf(),
            final(self)@ == old(self)@ + Seq::new(bits as nat, |i: int| false),
    {
        let ghost old_view = self@;
        let end_bit = self.bit_idx + bits;
        let bytes_needed = if end_bit % 8 == 0 { end_bit / 8 } else { end_bit / 8 + 1 };
        while self.data.len() < bytes_needed
            invariant
                byte_len(self.bit_idx as nat) <= self.data@.len() <= bytes_needed,
                bytes_needed == byte_len(end_bit as nat),
                end_bit == self.bit_idx + bits,
                self@ == old_view,
                forall|k: int|
                    self.bit_idx <= k < 8 * self.data@.len() ==> !#[trigger] byte_bit(
                        self.data@[k / 8],
                        (k % 8) as u8,
                    ),
            decreases bytes_needed - self.data@.len(),
        {
            let ghost before = self.data@;
            self.data.push(0u8);
            assert forall|k: int|
                self.bit_idx <= k < 8 * self.data@.len() implies !#[trigger] byte_bit(
                self.data@[k / 8],
                (k % 8) as u8,
            ) by {
                if k / 8 == before.len() {
                    lemma_zero_byte((k % 8) as u8);
                } else {
                    assert(self.data@[k / 8] == before[k / 8]);
                }
            }
            assert(self@ =~= old_view) by {
                assert forall|k: int| 0 <= k < self.bit_idx implies #[trigger] self.data@[k / 8]
                    == before[k / 8] by {}
            }
        }
        self.bit_idx = end_bit;
        assert(self@ =~= old_view + Seq::new(bits as nat, |i: int| false));
    }

    /// Write a single bit: `true` as 1, `false` as 0.
    pub fn write_bit(&mut self, value: bool)
        requires
            old(self).wf(),
            old(self)@.len() < usize::MAX,
        ensures
            final(self).wf(),
            final(self)@ == old(self)@.push(value),
    {
        let ghost old_view = self@;
        let ghost n = self.bit_idx as int;
        let off = self.bit_idx % 8;
        if off == 0 {
            self.data.push(0u8);
        }
        let ghost mid = self.data@;
        let byte_idx = self.bit_idx / 8;
        if value {
            let b = self.data[byte_idx];
            self.data[byte_idx] = b | (1u8 << (off as u8));
        }
        self.bit_idx = self.bit_idx + 1;
        proof {
            assert forall|k: int| 0 <= k < 8 * self.data@.len() implies #[trigger] byte_bit(
                self.data@[k / 8],
                (k % 8) as u8,
            ) == if k < n {
                byte_bit(mid[k / 8], (k % 8) as u8)
            } else if k == n {
                value
            } else {
                false
            } by {
                if k / 8 == byte_idx {
                    if value {
                        lemma_set_bit(mid[k / 8], off as u8, (k % 8) as u8);
                    }
                    if off == 0 {
                        lemma_zero_byte((k % 8) as u8);
                    }
                } else if k / 8 == mid.len() - 1 && off == 0 {
                    lemma_zero_byte((k % 8) as u8);
                }
            }
            assert(self@ =~= old_view.push(value));
        }
    }

    /// Write the lowest `bits` bits of `value`, least significant first.
    ///
    /// As many bits as fit are packed into the current byte before the next
    /// byte is started.
    pub fn write_partly(&mut self, value: u64, bits: usize)
        requires
            old(self).wf(),
            bits <= 64,
            old(self)@.len() + bits <= usize::MAX,
        ensures
            final(self).wf(),
            final(self)@ == old(self)@ + low_bits(value, bits as nat),
    {
        let ghost old_view = self@;
        let ghost n0 = self.bit_idx as int;
        let mut written: usize = 0;
        assert(old_view + low_bits(value, 0) =~= old_view);
        while written < bits
            invariant
                self.wf(),
                bits <= 64,
                written <= bits,
                self.bit_idx == n0 + written,
                old_view.len() == n0,
                n0 + bits <= usize::MAX,
                self@ == old_view + low_bits(value, written as nat),
            decreases bits - written,
        {
            let ghost before_view = self@;
            let ghost before_data = self.data@;
            let ghost n = self.bit_idx as int;
            let off = self.bit_idx % 8;
            if off == 0 {
                self.data.push(0u8);
            }
            let ghost mid = self.data@;
            let byte_idx = self.bit_idx / 8;
            let room = 8 - off;
            let rest = bits - written;
            let chunk_size = if room < rest {
                room
            } else {
                rest
            };
            assert(1u64 << (chunk_size as u64) >= 1u64) by (bit_vector)
                requires
                    chunk_size as u64 <= 8,
            ;
            let mask: u64 = (1u64 << (chunk_size as u64)) - 1u64;
            let chunk = ((value >> (written as u64)) & mask) as u8;
            let b = self.data[byte_idx];
            self.data[byte_idx] = b | ((chunk << (off as u8)) as u8);
            self.bit_idx = self.bit_idx + chunk_size;
            written = written + chunk_size;
            proof {
                let cs = chunk_size as int;
                assert forall|k: int| 0 <= k < 8 * self.data@.len() implies #[trigger] byte_bit(
                    self.data@[k / 8],
                    (k % 8) as u8,
                ) == if k < n {
                    byte_bit(mid[k / 8], (k % 8) as u8)
                } else if k < n + cs {
                    word_bit(value, (written - cs + (k - n)) as u64)
                } else {
                    false
                } by {
                    if k / 8 == byte_idx {
                        lemma_or_chunk(
                            mid[k / 8],
                            value,
                            (written - cs) as u64,
                            off as u64,
                            cs as u64,
                            (k % 8) as u64,
                        );
                        if off == 0 {
                            lemma_zero_byte((k % 8) as u8);
                        }
                    }
                }
                assert forall|k: int| 0 <= k < self.bit_idx implies #[trigger] self@[k] == (
                old_view + low_bits(value, written as nat))[k] by {
                    assert(self@[k] == byte_bit(self.data@[k / 8], (k % 8) as u8));
                    assert(k < 8 * self.data@.len());
                    if k < n {
                        assert(mid[k / 8] == before_data[k / 8]);
                        assert(before_view[k] == byte_bit(mid[k / 8], (k % 8) as u8));
                        assert(self@[k] == before_view[k]);
                        assert(before_view[k] == (old_view + low_bits(value, (written - cs) as nat))[k]);
                        if k >= n0 {
                            assert(low_bits(value, (written - cs) as nat)[k - n0] == low_bits(value, written as nat)[k - n0]);
                            assert((old_view + low_bits(value, (written - cs) as nat))[k] == low_bits(value, (written - cs) as nat)[k - n0]);
                            assert((old_view + low_bits(value, written as nat))[k] == low_bits(value, written as nat)[k - n0]);
                        } else {
                            assert((old_view + low_bits(value, (written - cs) as nat))[k] == old_view[k]);
                            assert((old_view + low_bits(value, written as nat))[k] == old_view[k]);
                        }
                    } else {
                        assert(self@[k] == word_bit(value, (k - n0) as u64));
                        assert(low_bits(value, written as nat)[k - n0] == word_bit(value, (k - n0) as u64));
                        assert((old_view + low_bits(value, written as nat))[k] == low_bits(value, written as nat)[k - n0]);
                    }
                }
                assert(self@ =~= old_view + low_bits(value, written as nat));
            }
        }
    }

    /// Finalize the bit stream: the packed bytes in reversed order, so that
    /// bit `k` of the stream is read at the end of the result.
    pub fn finish(self) -> (out: Vec<u8>)
        requires
            self.wf(),
        ensures
            encodes_bits(out@, self@),
    {
        let len = self.data.len();
        let mut out: Vec<u8> = Vec::new();
        let mut i: usize = 0;
        while i < len
            invariant
                len == self.data@.len(),
                i <= len,
                out@.len() == i,
                forall|j: int| 0 <= j < i ==> #[trigger] out@[j] == self.data@[len - 1 - j],
            decreases len - i,
        {
            out.push(self.data[len - 1 - i]);
            i = i + 1;
        }
        proof {
            assert forall|k: int| 0 <= k < 8 * out@.len() implies #[trigger] crate::bits::stream_bit(
                out@,
                k,
            ) == (k < self@.len() && self@[k]) by {
                assert(out@[out@.len() - 1 - k / 8] == self.data@[k / 8]);
            }
        }
        out
    }
}

impl Default for EncodeHelper {
    /// An empty helper: no bits written.
    fn default() -> (helper: Self)
        ensures
            helper.wf(),
            helper@ == Seq::<bool>::empty(),
    {
        EncodeHelper::new()
    }
}

} // verus!
