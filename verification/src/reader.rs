//! Bit-addressable read cursor over an in-memory byte buffer.
//!
//! Reads are served from a cached 64-bit little-endian window (`fetch`) so
//! the backing buffer is not touched bit by bit; the window is refetched
//! only when a read needs bits beyond it, and a read straddling the window
//! boundary consumes the remaining window bits, refetches, then consumes the
//! rest. Every read is specified against [`crate::bits::bits_val`], the
//! mathematical value of the stream's bits at the cursor.

use vstd::prelude::*;
use vstd::utf8::{decode_utf8, valid_utf8};
use vstd::arithmetic::power2::*;
use vstd::bits::{
    lemma_u64_low_bits_mask_is_mod,
    lemma_u64_pow2_no_overflow,
    lemma_u64_shl_is_mul,
    lemma_u64_shr_is_div,
    low_bits_mask,
};
use crate::bits::{bits_val, word_le, lemma_bits_val_bound, lemma_bits_val_split,
    lemma_window_extract, lemma_word_le_is_bits_val, as_i32, as_i16, sint_of, var_int_size,
    var_int_val, lemma_var_int_size_pos, stream_bytes, nul_scan, trim_len,
    lemma_nul_scan_found, lemma_nul_scan_oob, lemma_trim_take};
use crate::error::ParserError;

verus! {

/// Reinterprets a 32-bit unsigned value as two's-complement signed.
fn u32_to_i32(u: u32) -> (r: i32)
    ensures
        r as int == as_i32(u as nat),
{
    if u < 0x8000_0000 {
        u as i32
    } else {
        ((u as i64) - 0x1_0000_0000) as i32
    }
}

/// Reinterprets a 16-bit unsigned value as two's-complement signed.
fn u16_to_i16(u: u16) -> (r: i16)
    ensures
        r as int == as_i16(u as nat),
{
    if u < 0x8000 {
        u as i16
    } else {
        ((u as i32) - 0x1_0000) as i16
    }
}

/// One axis of a coordinate vector, kept as the raw parts the stream
/// encodes: presence bits, a sign bit, a 14-bit integer part and a 5-bit
/// fraction part, each only read when its presence bit is set. Turning the
/// parts into a floating-point coordinate is presentation work left to the
/// caller.
#[derive(Debug, Clone, Copy, PartialEq, Eq, Structural)]
pub struct VectorCoord {
    pub has_integer: bool,
    pub has_fraction: bool,
    pub sign: bool,
    pub int_bits: u32,
    pub frac_bits: u32,
}

/// Width in bits of one encoded coordinate starting at `pos`.
pub open spec fn coord_width(data: Seq<u8>, pos: nat) -> nat {
    let has_int = bits_val(data, pos, 1) == 1;
    let has_frac = bits_val(data, pos + 1, 1) == 1;
    if has_int || has_frac {
        (3 + (if has_int {
            14int
        } else {
            0int
        }) + (if has_frac {
            5int
        } else {
            0int
        })) as nat
    } else {
        2
    }
}

/// The coordinate parts encoded at `pos`.
pub open spec fn coord_value(data: Seq<u8>, pos: nat) -> VectorCoord {
    let has_int = bits_val(data, pos, 1) == 1;
    let has_frac = bits_val(data, pos + 1, 1) == 1;
    if has_int || has_frac {
        VectorCoord {
            has_integer: has_int,
            has_fraction: has_frac,
            sign: bits_val(data, pos + 2, 1) == 1,
            int_bits: if has_int {
                bits_val(data, pos + 3, 14) as u32
            } else {
                0
            },
            frac_bits: if has_frac {
                bits_val(data, (pos + 3 + (if has_int {
                    14int
                } else {
                    0int
                })) as nat, 5) as u32
            } else {
                0
            },
        }
    } else {
        VectorCoord {
            has_integer: false,
            has_fraction: false,
            sign: false,
            int_bits: 0,
            frac_bits: 0,
        }
    }
}

/// Width in bits of a three-axis coordinate vector starting at `pos`:
/// three presence bits, then one encoded coordinate per present axis.
pub open spec fn coords_width(data: Seq<u8>, pos: nat) -> nat {
    let p1 = pos + 3;
    let w1: nat = if bits_val(data, pos, 1) == 1 {
        coord_width(data, p1)
    } else {
        0
    };
    let p2 = p1 + w1;
    let w2: nat = if bits_val(data, pos + 1, 1) == 1 {
        coord_width(data, p2)
    } else {
        0
    };
    let p3 = p2 + w2;
    let w3: nat = if bits_val(data, pos + 2, 1) == 1 {
        coord_width(data, p3)
    } else {
        0
    };
    3 + w1 + w2 + w3
}

/// Relies on String::from_utf8: it succeeds exactly on well-formed UTF-8
/// and decodes the bytes to the characters they encode.
#[verifier::external_body]
fn utf8_bytes_to_string(v: Vec<u8>) -> (r: Option<String>)
    ensures
        r is Some <==> valid_utf8(v@),
        (r matches Some(s) ==> s@ == decode_utf8(v@)),
{
    match String::from_utf8(v) {
        Ok(s) => Some(s),
        Err(_) => None,
    }
}

/// Read cursor over a byte buffer, addressable at bit granularity.
///
/// `current` is the absolute bit position of the next read. `fetch` caches
/// the 8 bytes starting at byte `(current - offset) / 8` as a little-endian
/// 64-bit window, and `offset` is the position of the cursor inside that
/// window.
pub struct BitReader<'a> {
    pub bits: &'a Vec<u8>,
    pub offset: u8,
    pub bit_size: usize,
    pub byte_size: usize,
    pub fetch: u64,
    pub current: usize,
}

impl<'a> BitReader<'a> {
    /// Byte index of the cached window's first byte.
    pub open spec fn window_block(self) -> nat {
        (((self.current as int) - (self.offset as int)) / 8) as nat
    }

    /// The size fields describe the buffer and the cursor is inside it.
    pub open spec fn sizes_ok(self) -> bool {
        &&& self.byte_size == self.bits@.len()
        &&& self.bit_size == self.bits@.len() * 8
        &&& self.byte_size >= 8
        &&& self.bit_size <= usize::MAX
        &&& self.current <= self.bit_size
    }

    /// Full well-formedness: sizes, and the cached window holds the 8
    /// buffer bytes the cursor currently sits in.
    pub open spec fn wf(self) -> bool {
        &&& self.sizes_ok()
        &&& self.offset <= 64
        &&& self.offset <= self.current
        &&& ((self.current as int) - (self.offset as int)) % 8 == 0
        &&& self.window_block() + 8 <= self.byte_size
        &&& self.fetch as nat == word_le(self.bits@, self.window_block(), 8)
    }

    /// Creates a cursor at bit position 0. The window needs 8 bytes to
    /// fetch, so a buffer shorter than that is rejected rather than read
    /// out of bounds.
    pub fn new(bits: &'a Vec<u8>) -> (r: Result<BitReader<'a>, ParserError>)
        ensures
            r is Ok <==> (bits@.len() >= 8 && bits@.len() * 8 <= usize::MAX),
            (r matches Ok(br) ==> {
                &&& br.wf()
                &&& br.bits@ == bits@
                &&& br.current == 0
                &&& br.bit_size == bits@.len() * 8
            }),
            r is Err ==> r == Err::<BitReader<'a>, ParserError>(ParserError::ReaderOutOfBounds),
    {
        if bits.len() < 8 {
            return Err(ParserError::ReaderOutOfBounds);
        }
        if bits.len() > usize::MAX / 8 {
            return Err(ParserError::ReaderOutOfBounds);
        }
        let mut new_reader = BitReader {
            bits,
            offset: 0,
            bit_size: bits.len() * 8,
            byte_size: bits.len(),
            fetch: 0,
            current: 0,
        };
        new_reader.fetch();
        Ok(new_reader)
    }

    /// Refetches the cached window for the current cursor position. Near
    /// the end of the buffer the window is anchored at the last 8 bytes, so
    /// it never reads past the buffer.
    pub fn fetch(&mut self)
        requires
            old(self).sizes_ok(),
        ensures
            final(self).bits == old(self).bits,
            final(self).bit_size == old(self).bit_size,
            final(self).byte_size == old(self).byte_size,
            final(self).current == old(self).current,
            final(self).wf(),
            final(self).window_block() == (if old(self).current / 8 + 8 > old(self).byte_size {
                (old(self).byte_size - 8) as nat
            } else {
                (old(self).current / 8) as nat
            }),
    {
        let block: usize = if self.current / 8 + 8 > self.byte_size {
            self.byte_size - 8
        } else {
            self.current / 8
        };
        assert(8 * block <= self.current && self.current - 8 * block <= 64);
        let b0 = self.bits[block] as u64;
        let b1 = self.bits[block + 1] as u64;
        let b2 = self.bits[block + 2] as u64;
        let b3 = self.bits[block + 3] as u64;
        let b4 = self.bits[block + 4] as u64;
        let b5 = self.bits[block + 5] as u64;
        let b6 = self.bits[block + 6] as u64;
        let b7 = self.bits[block + 7] as u64;
        let mut f: u64 = b7;
        f = f * 256 + b6;
        f = f * 256 + b5;
        f = f * 256 + b4;
        f = f * 256 + b3;
        f = f * 256 + b2;
        f = f * 256 + b1;
        f = f * 256 + b0;
        proof {
            let d = self.bits@;
            let bl = block as nat;
            assert(word_le(d, bl + 8, 0) == 0);
            assert(word_le(d, bl + 7, 1) == b7);
            assert(word_le(d, bl + 6, 2) == b6 + 256 * (b7 as nat));
            assert(word_le(d, bl + 5, 3) == b5 + 256 * word_le(d, bl + 6, 2));
            assert(word_le(d, bl + 4, 4) == b4 + 256 * word_le(d, bl + 5, 3));
            assert(word_le(d, bl + 3, 5) == b3 + 256 * word_le(d, bl + 4, 4));
            assert(word_le(d, bl + 2, 6) == b2 + 256 * word_le(d, bl + 3, 5));
            assert(word_le(d, bl + 1, 7) == b1 + 256 * word_le(d, bl + 2, 6));
            assert(word_le(d, bl, 8) == b0 + 256 * word_le(d, bl + 1, 7));
        }
        self.fetch = f;
        self.offset = (self.current - block * 8) as u8;
    }

    /// Advances the cursor by `amount` bits and refreshes the window; a
    /// skip that would cross the end of the buffer fails and leaves the
    /// cursor where it was.
    pub fn skip(&mut self, amount: usize) -> (r: Result<(), ParserError>)
        requires
            old(self).wf(),
        ensures
            final(self).bits == old(self).bits,
            final(self).bit_size == old(self).bit_size,
            final(self).wf(),
            r is Ok <==> old(self).current + amount <= old(self).bit_size,
            r is Ok ==> final(self).current == old(self).current + amount,
            r is Err ==> *final(self) == *old(self) && r == Err::<(), ParserError>(
                ParserError::ReaderOutOfBounds,
            ),
    {
        if amount > self.bit_size - self.current {
            return Err(ParserError::ReaderOutOfBounds);
        }
        self.current = self.current + amount;
        self.fetch();
        Ok(())
    }

    /// Reads the next `amount` bits (`amount <= 64`) as an unsigned value,
    /// first bit least significant, advancing the cursor; fails without
    /// moving when fewer than `amount` bits remain.
    pub fn read_bits(&mut self, amount: usize) -> (r: Result<u64, ParserError>)
        requires
            old(self).wf(),
            amount <= 64,
        ensures
            final(self).bits == old(self).bits,
            final(self).bit_size == old(self).bit_size,
            final(self).wf(),
            r is Ok <==> old(self).current + amount <= old(self).bit_size,
            (r matches Ok(v) ==> {
                &&& final(self).current == old(self).current + amount
                &&& v as nat == bits_val(old(self).bits@, old(self).current as nat, amount as nat)
            }),
            r is Err ==> *final(self) == *old(self) && r == Err::<u64, ParserError>(
                ParserError::ReaderOutOfBounds,
            ),
    {
        if amount > self.bit_size - self.current {
            return Err(ParserError::ReaderOutOfBounds);
        }
        let ghost data = self.bits@;
        let ghost start = self.current as nat;
        let mut new_amount: usize = amount;
        let mut res: u64 = 0;
        let mut shift: usize = 0;
        let remain: usize = 64 - self.offset as usize;

        if remain == 0 {
            self.fetch();
        } else if new_amount > remain {
            // The read straddles the window boundary: take the bits the
            // window still holds, refetch, and take the rest below.
            proof {
                self.lemma_extract_ok(remain as nat);
                lemma_u64_pow2_no_overflow(remain as nat);
                lemma_u64_shl_is_mul(1u64, remain as u64);
                lemma_pow2_pos(remain as nat);
            }
            let mask: u64 = (1u64 << (remain as u64)) - 1;
            res = (self.fetch >> (self.offset as u64)) & mask;
            assert(res as nat == bits_val(data, start, remain as nat));
            self.current = self.current + remain;
            self.fetch();
            new_amount = new_amount - remain;
            shift = remain;
        }
        assert(self.offset + new_amount <= 64);
        let hi: u64 = if new_amount == 0 {
            0u64
        } else if new_amount == 64 {
            proof {
                assert(self.offset == 0);
                lemma_word_le_is_bits_val(data, self.window_block(), 8);
            }
            self.fetch
        } else {
            proof {
                self.lemma_extract_ok(new_amount as nat);
                lemma_u64_pow2_no_overflow(new_amount as nat);
                lemma_u64_shl_is_mul(1u64, new_amount as u64);
                lemma_pow2_pos(new_amount as nat);
            }
            let mask: u64 = (1u64 << (new_amount as u64)) - 1;
            (self.fetch >> (self.offset as u64)) & mask
        };
        assert(hi as nat == bits_val(data, (start + shift) as nat, new_amount as nat));
        if shift == 0 {
            res = hi;
        } else {
            proof {
                lemma_bits_val_bound(data, start, shift as nat);
                lemma_bits_val_bound(data, (start + shift) as nat, new_amount as nat);
                lemma_u64_pow2_no_overflow(shift as nat);
                lemma_u64_shl_is_mul(1u64, shift as u64);
                vstd::arithmetic::mul::lemma_mul_basics(pow2(shift as nat) as int);
                let sh = shift as u64;
                let lo64 = res;
                let hi64 = hi;
                assert(1u64 << sh == pow2(shift as nat));
                assert(pow2(64) == 0x1_0000_0000_0000_0000) by {
                    lemma2_to64_rest();
                }
                assert((hi64 as nat) * pow2(shift as nat) + (lo64 as nat) < pow2(64)) by {
                    lemma_pow2_adds(new_amount as nat, shift as nat);
                    lemma2_to64_rest();
                    vstd::arithmetic::mul::lemma_mul_inequality(
                        hi64 as int,
                        pow2(new_amount as nat) as int - 1,
                        pow2(shift as nat) as int,
                    );
                    vstd::arithmetic::mul::lemma_mul_basics(pow2(shift as nat) as int);
                    assert((pow2(new_amount as nat) - 1) * pow2(shift as nat) == pow2(
                        new_amount as nat,
                    ) * pow2(shift as nat) - pow2(shift as nat)) by {
                        vstd::arithmetic::mul::lemma_mul_is_distributive_sub_other_way(
                            pow2(shift as nat) as int,
                            pow2(new_amount as nat) as int,
                            1,
                        );
                    }
                    assert(pow2((new_amount + shift) as nat) <= pow2(64)) by {
                        if new_amount + shift < 64 {
                            lemma_pow2_strictly_increases((new_amount + shift) as nat, 64);
                        }
                    }
                }
                assert(lo64 | (hi64 << sh) == lo64 + hi64 * (1u64 << sh)) by (bit_vector)
                    requires
                        sh < 64,
                        lo64 < (1u64 << sh),
                        hi64 * (1u64 << sh) + lo64 < 0x1_0000_0000_0000_0000,
                ;
                lemma_bits_val_split(data, start, shift as nat, new_amount as nat);
                vstd::arithmetic::mul::lemma_mul_is_commutative(
                    hi64 as int,
                    pow2(shift as nat) as int,
                );
                assert((lo64 | (hi64 << sh)) as nat == bits_val(
                    data,
                    start,
                    (shift + new_amount) as nat,
                ));
            }
            res = res | (hi << (shift as u64));
        }
        self.current = self.current + new_amount;
        self.offset = self.offset + (new_amount as u8);
        Ok(res)
    }

    /// Clones the cursor at its current position as an independent view
    /// for a sub-grammar, then advances this cursor by exactly `amount`
    /// bits: whatever the view's own cursor later does, the parent lands
    /// `amount` bits further.
    pub fn split_and_skip(&mut self, amount: usize) -> (r: Result<BitReader<'a>, ParserError>)
        requires
            old(self).wf(),
        ensures
            final(self).bits == old(self).bits,
            final(self).bit_size == old(self).bit_size,
            final(self).wf(),
            r is Ok <==> old(self).current + amount <= old(self).bit_size,
            (r matches Ok(sub) ==> {
                &&& sub.wf()
                &&& sub.bits@ == old(self).bits@
                &&& sub.bit_size == old(self).bit_size
                &&& sub.current == old(self).current
                &&& final(self).current == old(self).current + amount
            }),
            r is Err ==> *final(self) == *old(self) && r == Err::<BitReader<'a>, ParserError>(
                ParserError::ReaderOutOfBounds,
            ),
    {
        let new_reader = BitReader {
            bits: self.bits,
            offset: self.offset,
            bit_size: self.bit_size,
            byte_size: self.byte_size,
            fetch: self.fetch,
            current: self.current,
        };
        match self.skip(amount) {
            Ok(()) => Ok(new_reader),
            Err(e) => Err(e),
        }
    }

    /// Reads `amount <= 8` bits as an unsigned byte.
    pub fn read_byte(&mut self, amount: usize) -> (r: Result<u8, ParserError>)
        requires
            old(self).wf(),
            amount <= 8,
        ensures
            final(self).bits == old(self).bits,
            final(self).bit_size == old(self).bit_size,
            final(self).wf(),
            r is Ok <==> old(self).current + amount <= old(self).bit_size,
            (r matches Ok(v) ==> {
                &&& final(self).current == old(self).current + amount
                &&& v as nat == bits_val(old(self).bits@, old(self).current as nat, amount as nat)
            }),
            r is Err ==> *final(self) == *old(self) && r == Err::<u8, ParserError>(
                ParserError::ReaderOutOfBounds,
            ),
    {
        match self.read_bits(amount) {
            Ok(v) => {
                proof {
                    lemma_bits_val_bound(old(self).bits@, old(self).current as nat, amount as nat);
                    lemma_pow2_pos(amount as nat);
                    if amount < 8 {
                        lemma_pow2_strictly_increases(amount as nat, 8);
                    }
                    assert(pow2(8) == 256) by {
                        lemma2_to64();
                    }
                }
                Ok(v as u8)
            },
            Err(e) => Err(e),
        }
    }

    /// Reads `amount <= 32` bits as an unsigned 32-bit value.
    pub fn read_uint(&mut self, amount: usize) -> (r: Result<u32, ParserError>)
        requires
            old(self).wf(),
            amount <= 32,
        ensures
            final(self).bits == old(self).bits,
            final(self).bit_size == old(self).bit_size,
            final(self).wf(),
            r is Ok <==> old(self).current + amount <= old(self).bit_size,
            (r matches Ok(v) ==> {
                &&& final(self).current == old(self).current + amount
                &&& v as nat == bits_val(old(self).bits@, old(self).current as nat, amount as nat)
            }),
            r is Err ==> *final(self) == *old(self) && r == Err::<u32, ParserError>(
                ParserError::ReaderOutOfBounds,
            ),
    {
        match self.read_bits(amount) {
            Ok(v) => {
                proof {
                    self.lemma_val_fits_32(old(self).current as nat, amount as nat);
                }
                Ok(v as u32)
            },
            Err(e) => Err(e),
        }
    }

    /// Reads `amount <= 32` bits and reinterprets them as a signed 32-bit
    /// value without sign-extending the field (a 20-bit field always comes
    /// out nonnegative).
    pub fn read_int(&mut self, amount: usize) -> (r: Result<i32, ParserError>)
        requires
            old(self).wf(),
            amount <= 32,
        ensures
            final(self).bits == old(self).bits,
            final(self).bit_size == old(self).bit_size,
            final(self).wf(),
            r is Ok <==> old(self).current + amount <= old(self).bit_size,
            (r matches Ok(v) ==> {
                &&& final(self).current == old(self).current + amount
                &&& v as int == as_i32(
                    bits_val(old(self).bits@, old(self).current as nat, amount as nat),
                )
            }),
            r is Err ==> *final(self) == *old(self) && r == Err::<i32, ParserError>(
                ParserError::ReaderOutOfBounds,
            ),
    {
        match self.read_uint(amount) {
            Ok(v) => Ok(u32_to_i32(v)),
            Err(e) => Err(e),
        }
    }

    /// Reads `amount <= 16` bits and reinterprets them as a signed 16-bit
    /// value without sign-extending the field.
    pub fn read_short(&mut self, amount: usize) -> (r: Result<i16, ParserError>)
        requires
            old(self).wf(),
            amount <= 16,
        ensures
            final(self).bits == old(self).bits,
            final(self).bit_size == old(self).bit_size,
            final(self).wf(),
            r is Ok <==> old(self).current + amount <= old(self).bit_size,
            (r matches Ok(v) ==> {
                &&& final(self).current == old(self).current + amount
                &&& v as int == as_i16(
                    bits_val(old(self).bits@, old(self).current as nat, amount as nat),
                )
            }),
            r is Err ==> *final(self) == *old(self) && r == Err::<i16, ParserError>(
                ParserError::ReaderOutOfBounds,
            ),
    {
        match self.read_bits(amount) {
            Ok(v) => {
                proof {
                    lemma_bits_val_bound(old(self).bits@, old(self).current as nat, amount as nat);
                    lemma_pow2_pos(amount as nat);
                    if amount < 16 {
                        lemma_pow2_strictly_increases(amount as nat, 16);
                    }
                    assert(pow2(16) == 0x1_0000) by {
                        lemma2_to64();
                    }
                }
                Ok(u16_to_i16(v as u16))
            },
            Err(e) => Err(e),
        }
    }

    /// Reads `1 <= amount <= 32` bits and sign-extends bit `amount - 1`
    /// across the high bits: the only reader that treats a sub-word field
    /// as two's complement.
    pub fn read_sint(&mut self, amount: usize) -> (r: Result<i32, ParserError>)
        requires
            old(self).wf(),
            1 <= amount <= 32,
        ensures
            final(self).bits == old(self).bits,
            final(self).bit_size == old(self).bit_size,
            final(self).wf(),
            r is Ok <==> old(self).current + amount <= old(self).bit_size,
            (r matches Ok(v) ==> {
                &&& final(self).current == old(self).current + amount
                &&& v as int == sint_of(
                    bits_val(old(self).bits@, old(self).current as nat, amount as nat),
                    amount as nat,
                )
            }),
            r is Err ==> *final(self) == *old(self) && r == Err::<i32, ParserError>(
                ParserError::ReaderOutOfBounds,
            ),
    {
        let v = match self.read_bits(amount) {
            Ok(v) => v,
            Err(e) => {
                return Err(e);
            },
        };
        proof {
            lemma_bits_val_bound(old(self).bits@, old(self).current as nat, amount as nat);
            lemma_u64_pow2_no_overflow((amount - 1) as nat);
            lemma_u64_shl_is_mul(1u64, (amount - 1) as u64);
            lemma_u64_pow2_no_overflow(amount as nat);
            lemma_u64_shl_is_mul(1u64, amount as u64);
            vstd::arithmetic::mul::lemma_mul_basics(pow2((amount - 1) as nat) as int);
            vstd::arithmetic::mul::lemma_mul_basics(pow2(amount as nat) as int);
            lemma_pow2_unfold(amount as nat);
            assert(pow2(31) == 0x8000_0000 && pow2(32) == 0x1_0000_0000) by {
                lemma2_to64();
            }
            if amount < 32 {
                lemma_pow2_strictly_increases((amount - 1) as nat, 31);
            }
        }
        let half: u64 = 1u64 << ((amount - 1) as u64);
        if v >= half {
            let p: u64 = if amount == 32 {
                0x1_0000_0000u64
            } else {
                proof {
                    assert(pow2(32) == 0x1_0000_0000) by {
                        lemma2_to64();
                    }
                    lemma_pow2_strictly_increases(amount as nat, 32);
                }
                1u64 << (amount as u64)
            };
            proof {
                assert(pow2(32) == 0x1_0000_0000) by {
                    lemma2_to64();
                }
                if amount < 32 {
                    lemma_pow2_strictly_increases(amount as nat, 32);
                }
                lemma_pow2_unfold(amount as nat);
            }
            Ok(((v as i64) - (p as i64)) as i32)
        } else {
            Ok(v as i32)
        }
    }

    /// Reads one bit as a boolean: nonzero means true.
    pub fn read_bool(&mut self) -> (r: Result<bool, ParserError>)
        requires
            old(self).wf(),
        ensures
            final(self).bits == old(self).bits,
            final(self).bit_size == old(self).bit_size,
            final(self).wf(),
            r is Ok <==> old(self).current + 1 <= old(self).bit_size,
            (r matches Ok(v) ==> {
                &&& final(self).current == old(self).current + 1
                &&& v == (bits_val(old(self).bits@, old(self).current as nat, 1) == 1)
            }),
            r is Err ==> *final(self) == *old(self) && r == Err::<bool, ParserError>(
                ParserError::ReaderOutOfBounds,
            ),
    {
        match self.read_bits(1) {
            Ok(v) => Ok(v == 1),
            Err(e) => Err(e),
        }
    }

    /// Reads a full 64-bit unsigned value.
    pub fn read_uint_64(&mut self) -> (r: Result<u64, ParserError>)
        requires
            old(self).wf(),
        ensures
            final(self).bits == old(self).bits,
            final(self).bit_size == old(self).bit_size,
            final(self).wf(),
            r is Ok <==> old(self).current + 64 <= old(self).bit_size,
            (r matches Ok(v) ==> {
                &&& final(self).current == old(self).current + 64
                &&& v as nat == bits_val(old(self).bits@, old(self).current as nat, 64)
            }),
            r is Err ==> *final(self) == *old(self) && r == Err::<u64, ParserError>(
                ParserError::ReaderOutOfBounds,
            ),
    {
        self.read_bits(64)
    }

    /// Reads one presence bit and, when it is set, a sign-extended field
    /// of `amount` bits.
    pub fn read_sint_if_exists(&mut self, amount: usize) -> (r: Result<
        Option<i32>,
        ParserError,
    >)
        requires
            old(self).wf(),
            1 <= amount <= 32,
        ensures
            final(self).bits == old(self).bits,
            final(self).bit_size == old(self).bit_size,
            final(self).wf(),
            final(self).current >= old(self).current,
            r is Ok <==> (old(self).current + 1 <= old(self).bit_size && (bits_val(
                old(self).bits@,
                old(self).current as nat,
                1,
            ) == 1 ==> old(self).current + 1 + amount <= old(self).bit_size)),
            (r matches Ok(o) ==> (match o {
                Option::Some(v) => {
                    &&& bits_val(old(self).bits@, old(self).current as nat, 1) == 1
                    &&& v as int == sint_of(
                        bits_val(old(self).bits@, (old(self).current + 1) as nat, amount as nat),
                        amount as nat,
                    )
                    &&& final(self).current == old(self).current + 1 + amount
                },
                Option::None => {
                    &&& bits_val(old(self).bits@, old(self).current as nat, 1) != 1
                    &&& final(self).current == old(self).current + 1
                },
            })),
            r is Err ==> r == Err::<Option<i32>, ParserError>(ParserError::ReaderOutOfBounds),
    {
        let present = match self.read_bool() {
            Ok(b) => b,
            Err(e) => {
                return Err(e);
            },
        };
        if present {
            match self.read_sint(amount) {
                Ok(v) => Ok(Some(v)),
                Err(e) => Err(e),
            }
        } else {
            Ok(None)
        }
    }

    /// Reads a variable-length 32-bit integer: up to 5 bytes, each holding
    /// 7 value bits (little-endian group order) and a continuation bit,
    /// stopping early at the first byte whose continuation bit is unset.
    #[verifier::rlimit(100)]
    pub fn read_var_int32(&mut self) -> (r: Result<i32, ParserError>)
        requires
            old(self).wf(),
        ensures
            final(self).bits == old(self).bits,
            final(self).bit_size == old(self).bit_size,
            final(self).wf(),
            final(self).current >= old(self).current,
            r is Ok <==> old(self).current + 8 * var_int_size(
                old(self).bits@,
                old(self).current as nat,
                5,
            ) <= old(self).bit_size,
            (r matches Ok(v) ==> {
                &&& final(self).current == old(self).current + 8 * var_int_size(
                    old(self).bits@,
                    old(self).current as nat,
                    5,
                )
                &&& v as int == as_i32(var_int_val(old(self).bits@, old(self).current as nat, 5))
            }),
            r is Err ==> r == Err::<i32, ParserError>(ParserError::ReaderOutOfBounds),
    {
        let ghost data = self.bits@;
        let ghost start = self.current as nat;
        let b0 = match self.read_bits(8) {
            Ok(b) => b,
            Err(e) => {
                proof {
                    lemma_var_int_size_pos(data, start, 5);
                }
                return Err(e);
            },
        };
        proof {
            lemma_bits_val_bound(data, start, 8);
            assert(pow2(8) == 256) by {
                lemma2_to64();
            }
        }
        if b0 < 128 {
            return Ok(u32_to_i32(b0 as u32));
        }
        let b1 = match self.read_bits(8) {
            Ok(b) => b,
            Err(e) => {
                proof {
                    assert(var_int_size(data, start, 5) == 1 + var_int_size(data, start + 8, 4));
                    lemma_var_int_size_pos(data, start + 8, 4);
                }
                return Err(e);
            },
        };
        proof {
            lemma_bits_val_bound(data, start + 8, 8);
            assert(pow2(8) == 256) by {
                lemma2_to64();
            }
        }
        let acc1: u64 = (b0 - 128) + 128 * b1;
        if b1 < 128 {
            assert(var_int_size(data, start + 8, 4) == 1);
            assert(var_int_val(data, start + 8, 4) == b1 as nat);
            assert(var_int_size(data, start, 5) == 2);
            assert(var_int_val(data, start, 5) == (b0 - 128) + 128 * (b1 as nat));
            return Ok(u32_to_i32(acc1 as u32));
        }
        let acc_lo: u64 = (b0 - 128) + 128 * (b1 - 128);
        self.read_var_int_rest(acc_lo, Ghost(start))
    }

    /// Continuation of [`Self::read_var_int32`] once two bytes with set
    /// continuation bits have been consumed: reads the remaining one to
    /// three bytes and assembles the full value.
    #[verifier::rlimit(100)]
    fn read_var_int_rest(&mut self, acc_lo: u64, Ghost(start): Ghost<nat>) -> (r: Result<
        i32,
        ParserError,
    >)
        requires
            old(self).wf(),
            old(self).current as nat == start + 16,
            bits_val(old(self).bits@, start, 8) >= 128,
            bits_val(old(self).bits@, start + 8, 8) >= 128,
            acc_lo as nat == (bits_val(old(self).bits@, start, 8) - 128) + 128 * (bits_val(
                old(self).bits@,
                start + 8,
                8,
            ) - 128),
        ensures
            final(self).bits == old(self).bits,
            final(self).bit_size == old(self).bit_size,
            final(self).wf(),
            final(self).current >= old(self).current,
            r is Ok <==> start + 8 * var_int_size(old(self).bits@, start, 5) <= old(
                self,
            ).bit_size,
            (r matches Ok(v) ==> {
                &&& final(self).current as nat == start + 8 * var_int_size(
                    old(self).bits@,
                    start,
                    5,
                )
                &&& v as int == as_i32(var_int_val(old(self).bits@, start, 5))
            }),
            r is Err ==> r == Err::<i32, ParserError>(ParserError::ReaderOutOfBounds),
    {
        let ghost data = self.bits@;
        let ghost g0 = bits_val(data, start, 8);
        let ghost g1 = bits_val(data, start + 8, 8);
        proof {
            lemma_bits_val_bound(data, start, 8);
            lemma_bits_val_bound(data, start + 8, 8);
            assert(pow2(8) == 256) by {
                lemma2_to64();
            }
        }
        let b2 = match self.read_bits(8) {
            Ok(b) => b,
            Err(e) => {
                proof {
                    assert(var_int_size(data, start, 5) == 1 + var_int_size(data, start + 8, 4));
                    assert(var_int_size(data, start + 8, 4) == 1 + var_int_size(
                        data,
                        start + 16,
                        3,
                    ));
                    lemma_var_int_size_pos(data, start + 16, 3);
                }
                return Err(e);
            },
        };
        proof {
            lemma_bits_val_bound(data, start + 16, 8);
            assert(pow2(8) == 256) by {
                lemma2_to64();
            }
        }
        let acc2: u64 = acc_lo + 16384 * b2;
        if b2 < 128 {
            assert(var_int_size(data, start + 16, 3) == 1);
            assert(var_int_val(data, start + 16, 3) == b2 as nat);
            assert(var_int_size(data, start + 8, 4) == 2);
            assert(var_int_val(data, start + 8, 4) == (g1 - 128) + 128 * (b2 as nat));
            assert(var_int_size(data, start, 5) == 3);
            assert(var_int_val(data, start, 5) == (g0 - 128) + 128 * var_int_val(
                data,
                start + 8,
                4,
            ));
            return Ok(u32_to_i32(acc2 as u32));
        }
        let b3 = match self.read_bits(8) {
            Ok(b) => b,
            Err(e) => {
                proof {
                    assert(var_int_size(data, start, 5) == 1 + var_int_size(data, start + 8, 4));
                    assert(var_int_size(data, start + 8, 4) == 1 + var_int_size(
                        data,
                        start + 16,
                        3,
                    ));
                    assert(var_int_size(data, start + 16, 3) == 1 + var_int_size(
                        data,
                        start + 24,
                        2,
                    ));
                    lemma_var_int_size_pos(data, start + 24, 2);
                }
                return Err(e);
            },
        };
        proof {
            lemma_bits_val_bound(data, start + 24, 8);
            assert(pow2(8) == 256) by {
                lemma2_to64();
            }
        }
        let acc3: u64 = acc_lo + 16384 * (b2 - 128) + 2097152 * b3;
        if b3 < 128 {
            assert(var_int_size(data, start + 24, 2) == 1);
            assert(var_int_val(data, start + 24, 2) == b3 as nat);
            assert(var_int_size(data, start + 16, 3) == 2);
            assert(var_int_val(data, start + 16, 3) == (b2 - 128) + 128 * (b3 as nat));
            assert(var_int_size(data, start + 8, 4) == 3);
            assert(var_int_val(data, start + 8, 4) == (g1 - 128) + 128 * var_int_val(
                data,
                start + 16,
                3,
            ));
            assert(var_int_size(data, start, 5) == 4);
            assert(var_int_val(data, start, 5) == (g0 - 128) + 128 * var_int_val(
                data,
                start + 8,
                4,
            ));
            return Ok(u32_to_i32(acc3 as u32));
        }
        let b4 = match self.read_bits(8) {
            Ok(b) => b,
            Err(e) => {
                proof {
                    assert(var_int_size(data, start, 5) == 1 + var_int_size(data, start + 8, 4));
                    assert(var_int_size(data, start + 8, 4) == 1 + var_int_size(
                        data,
                        start + 16,
                        3,
                    ));
                    assert(var_int_size(data, start + 16, 3) == 1 + var_int_size(
                        data,
                        start + 24,
                        2,
                    ));
                    assert(var_int_size(data, start + 24, 2) == 1 + var_int_size(
                        data,
                        start + 32,
                        1,
                    ));
                    assert(var_int_size(data, start + 32, 1) == 1);
                }
                return Err(e);
            },
        };
        proof {
            lemma_bits_val_bound(data, start + 32, 8);
            assert(pow2(8) == 256) by {
                lemma2_to64();
            }
        }
        let acc4: u64 = acc_lo + 16384 * (b2 - 128) + 2097152 * (b3 - 128) + 268435456 * (b4
            % 128);
        assert(var_int_val(data, start + 32, 1) == (b4 as nat) % 128);
        assert(var_int_size(data, start + 32, 1) == 1);
        assert(var_int_val(data, start + 24, 2) == (b3 - 128) + 128 * ((b4 as nat) % 128));
        assert(var_int_size(data, start + 24, 2) == 2);
        assert(var_int_val(data, start + 16, 3) == (b2 - 128) + 128 * var_int_val(
            data,
            start + 24,
            2,
        ));
        assert(var_int_size(data, start + 16, 3) == 3);
        assert(var_int_size(data, start + 8, 4) == 4);
        assert(var_int_val(data, start + 8, 4) == (g1 - 128) + 128 * var_int_val(
            data,
            start + 16,
            3,
        ));
        assert(var_int_size(data, start, 5) == 5);
        assert(var_int_val(data, start, 5) == (g0 - 128) + 128 * var_int_val(data, start + 8, 4));
        let t: u32 = #[verifier::truncate] (acc4 as u32);
        assert(acc4 as u32 == acc4 % 0x1_0000_0000) by (bit_vector);
        Ok(u32_to_i32(t))
    }

    /// Reads `amount` whole bytes, bit-aligned to the cursor.
    pub fn read_bytes(&mut self, amount: usize) -> (r: Result<Vec<u8>, ParserError>)
        requires
            old(self).wf(),
        ensures
            final(self).bits == old(self).bits,
            final(self).bit_size == old(self).bit_size,
            final(self).wf(),
            final(self).current >= old(self).current,
            r is Ok <==> old(self).current + 8 * amount <= old(self).bit_size,
            (r matches Ok(v) ==> {
                &&& v@ == crate::bits::stream_bytes(
                    old(self).bits@,
                    old(self).current as nat,
                    amount as nat,
                )
                &&& final(self).current == old(self).current + 8 * amount
            }),
            r is Err ==> r == Err::<Vec<u8>, ParserError>(ParserError::ReaderOutOfBounds),
    {
        let ghost data = self.bits@;
        let ghost start = self.current as nat;
        let mut res: Vec<u8> = Vec::new();
        let mut i: usize = 0;
        while i < amount
            invariant
                self.wf(),
                self.bits@ == data,
                self.bit_size == old(self).bit_size,
                self.bits == old(self).bits,
                start == old(self).current as nat,
                data == old(self).bits@,
                i <= amount,
                res@.len() == i,
                self.current as nat == start + 8 * i,
                forall|j: int|
                    0 <= j < i ==> (#[trigger] res@[j]) as nat == bits_val(
                        data,
                        (start + 8 * j) as nat,
                        8,
                    ),
            decreases amount - i,
        {
            let b = match self.read_bits(8) {
                Ok(b) => b,
                Err(_) => {
                    proof {
                        assert(start + 8 * i + 8 <= start + 8 * amount);
                    }
                    return Err(ParserError::ReaderOutOfBounds);
                },
            };
            proof {
                lemma_bits_val_bound(data, (start + 8 * i) as nat, 8);
                assert(pow2(8) == 256) by {
                    lemma2_to64();
                }
            }
            res.push(b as u8);
            i = i + 1;
        }
        proof {
            assert(res@ =~= crate::bits::stream_bytes(data, start, amount as nat));
        }
        Ok(res)
    }

    /// Reads bytes until a zero byte, which is consumed but excluded,
    /// yielding the string they spell as UTF-8. Malformed UTF-8 is a
    /// decode failure; running out of buffer before the zero byte is an
    /// out-of-bounds failure.
    #[verifier::loop_isolation(false)]
    pub fn read_ascii_string_nulled(&mut self) -> (r: Result<String, ParserError>)
        requires
            old(self).wf(),
        ensures
            final(self).bits == old(self).bits,
            final(self).bit_size == old(self).bit_size,
            final(self).wf(),
            final(self).current >= old(self).current,
            (match nul_scan(old(self).bits@, old(self).current as nat, old(self).bit_size as nat) {
                Option::None => r == Err::<String, ParserError>(ParserError::ReaderOutOfBounds),
                Option::Some(k) => (if valid_utf8(
                    stream_bytes(old(self).bits@, old(self).current as nat, k),
                ) {
                    &&& r is Ok
                    &&& (r matches Ok(s) ==> s@ == decode_utf8(
                        stream_bytes(old(self).bits@, old(self).current as nat, k),
                    ))
                    &&& final(self).current as nat == old(self).current + 8 * (k + 1)
                } else {
                    r == Err::<String, ParserError>(ParserError::DecodeError)
                }),
            }),
    {
        let ghost data = self.bits@;
        let ghost start = self.current as nat;
        let ghost bitlen = self.bit_size as nat;
        let mut char_vec: Vec<u8> = Vec::new();
        let mut done = false;
        while !done
            invariant
                self.wf(),
                self.bits@ == data,
                self.bits == old(self).bits,
                self.bit_size == old(self).bit_size,
                !done ==> self.current as nat == start + 8 * char_vec@.len(),
                done ==> nul_scan(data, start, bitlen) == Some(char_vec@.len() as nat)
                    && self.current as nat == start + 8 * (char_vec@.len() + 1),
                forall|j: int|
                    0 <= j < char_vec@.len() ==> ((#[trigger] char_vec@[j]) as nat == bits_val(
                        data,
                        (start + 8 * j) as nat,
                        8,
                    ) && char_vec@[j] != 0),
            decreases bitlen - self.current,
        {
            let ghost k = char_vec@.len() as nat;
            let b = match self.read_bits(8) {
                Ok(b) => b,
                Err(_) => {
                    proof {
                        assert forall|j: nat| j < k implies #[trigger] bits_val(
                            data,
                            (start + 8 * j) as nat,
                            8,
                        ) != 0 by {
                            assert(char_vec@[j as int] != 0);
                        }
                        lemma_nul_scan_oob(data, start, bitlen, k);
                    }
                    return Err(ParserError::ReaderOutOfBounds);
                },
            };
            proof {
                lemma_bits_val_bound(data, (start + 8 * k) as nat, 8);
                assert(pow2(8) == 256) by {
                    lemma2_to64();
                }
            }
            if b == 0 {
                proof {
                    assert forall|j: nat| j < k implies #[trigger] bits_val(
                        data,
                        (start + 8 * j) as nat,
                        8,
                    ) != 0 by {
                        assert(char_vec@[j as int] != 0);
                    }
                    lemma_nul_scan_found(data, start, bitlen, k);
                }
                done = true;
            } else {
                char_vec.push(b as u8);
            }
        }
        let ghost k = char_vec@.len() as nat;
        proof {
            assert(char_vec@ =~= stream_bytes(data, start, k));
        }
        match utf8_bytes_to_string(char_vec) {
            Some(s) => Ok(s),
            None => Err(ParserError::DecodeError),
        }
    }

    /// Reads exactly `amount / 8` bytes and trims trailing zero padding
    /// bytes, yielding the string the rest spell as UTF-8; malformed
    /// UTF-8 is a decode failure. The cursor always lands past all
    /// `amount / 8` bytes.
    #[verifier::loop_isolation(false)]
    pub fn read_ascii_string(&mut self, amount: usize) -> (r: Result<String, ParserError>)
        requires
            old(self).wf(),
        ensures
            final(self).bits == old(self).bits,
            final(self).bit_size == old(self).bit_size,
            final(self).wf(),
            final(self).current >= old(self).current,
            (if old(self).current + 8 * ((amount as nat) / 8) > old(self).bit_size {
                r == Err::<String, ParserError>(ParserError::ReaderOutOfBounds)
            } else if !valid_utf8(
                crate::bits::fixed_str_bytes(
                    old(self).bits@,
                    old(self).current as nat,
                    (amount as nat) / 8,
                ),
            ) {
                r == Err::<String, ParserError>(ParserError::DecodeError)
            } else {
                &&& r is Ok
                &&& (r matches Ok(s) ==> s@ == crate::bits::fixed_str_view(
                    old(self).bits@,
                    old(self).current as nat,
                    (amount as nat) / 8,
                ))
                &&& final(self).current as nat == old(self).current + 8 * ((amount as nat) / 8)
            }),
    {
        let ghost data = self.bits@;
        let ghost start = self.current as nat;
        let count = amount / 8;
        let bytes = match self.read_bytes(count) {
            Ok(v) => v,
            Err(e) => {
                return Err(e);
            },
        };
        let ghost sb = stream_bytes(data, start, count as nat);
        let mut end = bytes.len();
        while end > 0 && bytes[end - 1] == 0
            invariant
                end <= bytes@.len(),
                forall|j: int| end <= j < bytes@.len() ==> bytes@[j] == 0,
            decreases end,
        {
            end = end - 1;
        }
        proof {
            lemma_trim_take(bytes@, end as nat);
            if end > 0 {
                assert(bytes@.take(end as int).last() == bytes@[end - 1]);
                assert(trim_len(bytes@.take(end as int)) == end);
            } else {
                assert(bytes@.take(0).len() == 0);
            }
            assert(trim_len(bytes@) == end);
        }
        let mut out: Vec<u8> = Vec::new();
        let mut i: usize = 0;
        while i < end
            invariant
                i <= end,
                end <= bytes@.len(),
                out@.len() == i,
                forall|j: int| 0 <= j < i ==> out@[j] == bytes@[j],
            decreases end - i,
        {
            out.push(bytes[i]);
            i = i + 1;
        }
        proof {
            assert(out@ =~= bytes@.take(end as int));
        }
        match utf8_bytes_to_string(out) {
            Some(s) => Ok(s),
            None => Err(ParserError::DecodeError),
        }
    }

    /// Reads one encoded coordinate: two presence bits and, when either is
    /// set, a sign bit, then a 14-bit integer part and a 5-bit fraction
    /// part, each gated by its presence bit.
    pub fn read_vector_coord(&mut self) -> (r: Result<VectorCoord, ParserError>)
        requires
            old(self).wf(),
        ensures
            final(self).bits == old(self).bits,
            final(self).bit_size == old(self).bit_size,
            final(self).wf(),
            final(self).current >= old(self).current,
            r is Ok <==> old(self).current + coord_width(old(self).bits@, old(self).current as nat)
                <= old(self).bit_size,
            (r matches Ok(c) ==> {
                &&& c == coord_value(old(self).bits@, old(self).current as nat)
                &&& final(self).current as nat == old(self).current + coord_width(
                    old(self).bits@,
                    old(self).current as nat,
                )
            }),
            r is Err ==> r == Err::<VectorCoord, ParserError>(ParserError::ReaderOutOfBounds),
    {
        let has_integer = match self.read_bool() {
            Ok(b) => b,
            Err(e) => {
                return Err(e);
            },
        };
        let has_fraction = match self.read_bool() {
            Ok(b) => b,
            Err(e) => {
                return Err(e);
            },
        };
        if has_integer || has_fraction {
            let sign = match self.read_bool() {
                Ok(b) => b,
                Err(e) => {
                    return Err(e);
                },
            };
            let int_bits: u32 = if has_integer {
                match self.read_uint(14) {
                    Ok(v) => v,
                    Err(e) => {
                        return Err(e);
                    },
                }
            } else {
                0
            };
            let frac_bits: u32 = if has_fraction {
                match self.read_uint(5) {
                    Ok(v) => v,
                    Err(e) => {
                        return Err(e);
                    },
                }
            } else {
                0
            };
            Ok(VectorCoord { has_integer, has_fraction, sign, int_bits, frac_bits })
        } else {
            Ok(
                VectorCoord {
                    has_integer: false,
                    has_fraction: false,
                    sign: false,
                    int_bits: 0,
                    frac_bits: 0,
                },
            )
        }
    }

    /// Reads a vector of three optional coordinates: one presence bit per
    /// axis, then one encoded coordinate for each axis whose bit is set.
    pub fn read_vector_coords(&mut self) -> (r: Result<Vec<Option<VectorCoord>>, ParserError>)
        requires
            old(self).wf(),
        ensures
            final(self).bits == old(self).bits,
            final(self).bit_size == old(self).bit_size,
            final(self).wf(),
            final(self).current >= old(self).current,
            r is Ok <==> old(self).current + coords_width(
                old(self).bits@,
                old(self).current as nat,
            ) <= old(self).bit_size,
            (r matches Ok(v) ==> ({
                let data = old(self).bits@;
                let start = old(self).current as nat;
                let p1 = start + 3;
                let w1: nat = if bits_val(data, start, 1) == 1 {
                    coord_width(data, p1)
                } else {
                    0
                };
                let p2 = p1 + w1;
                let w2: nat = if bits_val(data, start + 1, 1) == 1 {
                    coord_width(data, p2)
                } else {
                    0
                };
                let p3 = p2 + w2;
                &&& v@.len() == 3
                &&& v@[0] == (if bits_val(data, start, 1) == 1 {
                    Some(coord_value(data, p1))
                } else {
                    None::<VectorCoord>
                })
                &&& v@[1] == (if bits_val(data, start + 1, 1) == 1 {
                    Some(coord_value(data, p2))
                } else {
                    None::<VectorCoord>
                })
                &&& v@[2] == (if bits_val(data, start + 2, 1) == 1 {
                    Some(coord_value(data, p3))
                } else {
                    None::<VectorCoord>
                })
                &&& final(self).current as nat == start + coords_width(data, start)
            })),
            r is Err ==> r == Err::<Vec<Option<VectorCoord>>, ParserError>(
                ParserError::ReaderOutOfBounds,
            ),
    {
        let x = match self.read_bool() {
            Ok(b) => b,
            Err(e) => {
                return Err(e);
            },
        };
        let y = match self.read_bool() {
            Ok(b) => b,
            Err(e) => {
                return Err(e);
            },
        };
        let z = match self.read_bool() {
            Ok(b) => b,
            Err(e) => {
                return Err(e);
            },
        };
        let mut coords_vec: Vec<Option<VectorCoord>> = Vec::new();
        if x {
            match self.read_vector_coord() {
                Ok(c) => coords_vec.push(Some(c)),
                Err(e) => {
                    return Err(e);
                },
            }
        } else {
            coords_vec.push(None);
        }
        if y {
            match self.read_vector_coord() {
                Ok(c) => coords_vec.push(Some(c)),
                Err(e) => {
                    return Err(e);
                },
            }
        } else {
            coords_vec.push(None);
        }
        if z {
            match self.read_vector_coord() {
                Ok(c) => coords_vec.push(Some(c)),
                Err(e) => {
                    return Err(e);
                },
            }
        } else {
            coords_vec.push(None);
        }
        Ok(coords_vec)
    }

    /// A field the reader serves with at most 32 bits fits a `u32`.
    proof fn lemma_val_fits_32(self, pos: nat, n: nat)
        requires
            n <= 32,
        ensures
            bits_val(self.bits@, pos, n) < 0x1_0000_0000,
    {
        lemma_bits_val_bound(self.bits@, pos, n);
        lemma_pow2_pos(n);
        if n < 32 {
            lemma_pow2_strictly_increases(n, 32);
        }
        assert(pow2(32) == 0x1_0000_0000) by {
            lemma2_to64();
        }
    }

    /// The window serves `n` more bits at the cursor: shifting the window
    /// down by `offset` and masking to `n` bits yields the stream's bits at
    /// `current`.
    proof fn lemma_extract_ok(self, n: nat)
        requires
            self.wf(),
            self.offset + n <= 64,
            1 <= n < 64,
        ensures
            ((self.fetch >> (self.offset as u64)) & (((1u64 << (n as u64)) - 1) as u64)) as nat == bits_val(
                self.bits@,
                self.current as nat,
                n,
            ),
    {
        let off = self.offset as nat;
        let data = self.bits@;
        let block = self.window_block();
        lemma_u64_shr_is_div(self.fetch, self.offset as u64);
        let shifted = self.fetch >> (self.offset as u64);
        lemma_u64_pow2_no_overflow(n);
        lemma_u64_shl_is_mul(1u64, n as u64);
        assert((1u64 << (n as u64)) - 1 == low_bits_mask(n));
        lemma_u64_low_bits_mask_is_mod(shifted, n);
        lemma_pow2_pos(n);
        lemma_window_extract(data, block, off, n);
        assert(8 * block + off == self.current as nat);
    }
}

} // verus!
