//! The reader of the bit-packed region.
use vstd::prelude::*;

use crate::bits::{
    bits_to_u64, byte_bit, byte_chunk_bits, stream_bit, stream_bits, lemma_bits_to_u64_append,
    lemma_byte_chunk_value, lemma_test_bit,
};
use crate::error::DecodeError;

verus! {

/// Helper for decoding bit-packed fields during deserialization.
///
/// Reads bits from the end of the encoded byte slice, matching the reversed
/// layout produced by [`crate::EncodeHelper::finish`].
pub struct DecodeHelper {
    bit_idx: usize,
}

impl View for DecodeHelper {
    /// The number of bits read (or skipped) so far.
    type V = nat;

    closed spec fn view(&self) -> nat {
        self.bit_idx as nat
    }
}

impl DecodeHelper {
    /// A helper positioned at the first bit of the stream.
    pub fn new() -> (helper: Self)
        ensures
            helper@ == 0,
    {
        DecodeHelper { bit_idx: 0 }
    }

    /// The number of bits read (or skipped) so far.
    pub fn bit_idx(&self) -> (r: usize)
        ensures
            r == self@,
    {
        self.bit_idx
    }

    /// Skip `bits` positions in the bit stream (reserved bits).
    pub fn reserve_bits(&mut self, bits: usize)
        requires
            old(self)@ + bits <= usize::MAX,
        ensures
            final(self)@ == old(self)@ + bits,
    {
        self.bit_idx = self.bit_idx + bits;
    }

    /// Read the next bit of the stream at the end of `data`.
    ///
    /// Fails with `UnexpectedEof`, without moving, when the stream is
    /// exhausted.
    pub fn read_bit(&mut self, data: &[u8]) -> (r: Result<bool, DecodeError>)
        requires
            old(self)@ < usize::MAX || old(self)@ >= 8 * data@.len(),
        ensures
            old(self)@ >= 8 * data@.len() ==> r == Err::<bool, DecodeError>(
                DecodeError::UnexpectedEof,
            ) && final(self)@ == old(self)@,
            old(self)@ < 8 * data@.len() ==> r == Ok::<bool, DecodeError>(
                stream_bit(data@, old(self)@ as int),
            ) && final(self)@ == old(self)@ + 1,
    {
        let byte_offset = self.bit_idx / 8;
        if byte_offset >= data.len() {
            return Err(DecodeError::UnexpectedEof);
        }
        let off = self.bit_idx % 8;
        let byte_idx = data.len() - byte_offset - 1;
        let b = data[byte_idx];
        let value = b & (1u8 << (off as u8)) != 0;
        proof {
            lemma_test_bit(b, off as u8);
        }
        self.bit_idx = self.bit_idx + 1;
        Ok(value)
    }

    /// Read the next `bits` bits of the stream as a number, least significant
    /// bit first.
    ///
    /// Fails with `UnexpectedEof`, without moving, when fewer than `bits`
    /// bits are left.
    pub fn read_partly(&mut self, data: &[u8], bits: usize) -> (r: Result<u64, DecodeError>)
        requires
            old(self)@ + bits <= usize::MAX,
            8 * data@.len() <= usize::MAX,
            bits <= 64 || old(self)@ + bits > 8 * data@.len(),
        ensures
            old(self)@ + bits > 8 * data@.len() ==> r == Err::<u64, DecodeError>(
                DecodeError::UnexpectedEof,
            ) && final(self)@ == old(self)@,
            old(self)@ + bits <= 8 * data@.len() ==> r == Ok::<u64, DecodeError>(
                bits_to_u64(stream_bits(data@, old(self)@ as int, bits as nat)),
            ) && final(self)@ == old(self)@ + bits,
    {
        let total_bits_needed = self.bit_idx + bits;
        if total_bits_needed > data.len() * 8 {
            return Err(DecodeError::UnexpectedEof);
        }
        let ghost start = self.bit_idx as int;
        let mut value: u64 = 0;
        let mut bits_read: usize = 0;
        assert(stream_bits(data@, start, 0) =~= Seq::<bool>::empty());
        while bits_read < bits
            invariant
                bits <= 64,
                bits_read <= bits,
                self.bit_idx == start + bits_read,
                start + bits <= 8 * data@.len(),
                start + bits <= usize::MAX,
                value == bits_to_u64(stream_bits(data@, start, bits_read as nat)),
            decreases bits - bits_read,
        {
            let off = self.bit_idx % 8;
            let byte_idx = data.len() - (self.bit_idx / 8) - 1;
            let room = 8 - off;
            let rest = bits - bits_read;
            let chunk_size = if room < rest {
                room
            } else {
                rest
            };
            assert(1u16 << (chunk_size as u16) >= 1u16) by (bit_vector)
                requires
                    chunk_size as u16 <= 8,
            ;
            let mask = ((1u16 << (chunk_size as u16)) - 1u16) as u8;
            let chunk = (data[byte_idx] >> (off as u8)) & mask;
            proof {
                let b = data@[byte_idx as int];
                let cs = chunk_size as nat;
                lemma_byte_chunk_value(b, off as nat, cs);
                let prev = stream_bits(data@, start, bits_read as nat);
                let piece = byte_chunk_bits(b, off as nat, cs);
                assert(stream_bits(data@, start, (bits_read + cs) as nat) =~= prev + piece) by {
                    assert forall|j: int| 0 <= j < cs implies #[trigger] piece[j] == stream_bit(
                        data@,
                        start + bits_read + j,
                    ) by {
                        let k = start + bits_read + j;
                        assert(k / 8 == self.bit_idx / 8);
                        assert(k % 8 == off + j);
                    }
                }
                lemma_bits_to_u64_append(prev, piece);
            }
            value = value | ((chunk as u64) << (bits_read as u64));
            self.bit_idx = self.bit_idx + chunk_size;
            bits_read = bits_read + chunk_size;
        }
        Ok(value)
    }
}

impl Default for DecodeHelper {
    /// A helper positioned at the first bit of the stream.
    fn default() -> (helper: Self)
        ensures
            helper@ == 0,
    {
        DecodeHelper::new()
    }
}

} // verus!
