//! Mathematical model of the bit stream.
//!
//! A demo file is a byte buffer read at bit granularity, least-significant
//! bit of each byte first. [`bits_val`] gives the unsigned value of the `n`
//! bits starting at a bit position, in little-endian bit order; it is the
//! single notion every reader contract is stated against. [`word_le`] gives
//! the value of consecutive whole bytes in little-endian byte order, which is
//! how the reader's cached 64-bit fetch window is described.

use vstd::prelude::*;
use vstd::arithmetic::power2::*;
use vstd::arithmetic::div_mod::{
    lemma_fundamental_div_mod_converse,
    lemma_mod_breakdown,
    lemma_div_denominator,
};
use vstd::arithmetic::mul::{lemma_mul_is_associative, lemma_mul_is_commutative};
use vstd::utf8::{decode_utf8, valid_utf8};

verus! {

/// The bit of the stream at bit position `i`: bit `i % 8` of byte `i / 8`,
/// as 0 or 1.
pub open spec fn stream_bit(data: Seq<u8>, i: nat) -> nat {
    ((data[(i / 8) as int] as nat) / pow2(i % 8)) % 2
}

/// Unsigned value of the `n` bits starting at bit position `pos`, first bit
/// least significant.
pub open spec fn bits_val(data: Seq<u8>, pos: nat, n: nat) -> nat
    decreases n,
{
    if n == 0 {
        0
    } else {
        stream_bit(data, pos) + 2 * bits_val(data, pos + 1, (n - 1) as nat)
    }
}

/// Unsigned value of the `count` bytes starting at byte index `start`, in
/// little-endian byte order.
pub open spec fn word_le(data: Seq<u8>, start: nat, count: nat) -> nat
    decreases count,
{
    if count == 0 {
        0
    } else {
        (data[start as int] as nat) + 256 * word_le(data, start + 1, (count - 1) as nat)
    }
}

/// The low 32 bits of `v` reinterpreted as a two's-complement signed
/// 32-bit value.
pub open spec fn as_i32(v: nat) -> int {
    if v % 0x1_0000_0000 < 0x8000_0000 {
        (v % 0x1_0000_0000) as int
    } else {
        (v % 0x1_0000_0000) - 0x1_0000_0000
    }
}

/// The low 16 bits of `v` reinterpreted as a two's-complement signed
/// 16-bit value.
pub open spec fn as_i16(v: nat) -> int {
    if v % 0x1_0000 < 0x8000 {
        (v % 0x1_0000) as int
    } else {
        (v % 0x1_0000) - 0x1_0000
    }
}

/// An `n`-bit field value sign-extended: bit `n - 1` is the sign bit.
pub open spec fn sint_of(v: nat, n: nat) -> int {
    if v < pow2((n - 1) as nat) {
        v as int
    } else {
        v - pow2(n)
    }
}

/// Number of bytes a variable-length integer starting at bit `pos` spans,
/// when up to `rounds` bytes may be read: each byte carries 7 value bits
/// and a continuation bit (0x80).
pub open spec fn var_int_size(data: Seq<u8>, pos: nat, rounds: nat) -> nat
    decreases rounds,
{
    if rounds <= 1 {
        1
    } else if bits_val(data, pos, 8) < 128 {
        1
    } else {
        1 + var_int_size(data, pos + 8, (rounds - 1) as nat)
    }
}

/// Value of a variable-length integer starting at bit `pos`: 7-bit groups
/// in little-endian group order, the last permitted byte contributing its
/// low 7 bits whatever its continuation bit says.
pub open spec fn var_int_val(data: Seq<u8>, pos: nat, rounds: nat) -> nat
    decreases rounds,
{
    let g = bits_val(data, pos, 8);
    if rounds <= 1 {
        g % 128
    } else if g < 128 {
        g
    } else {
        (g % 128) + 128 * var_int_val(data, pos + 8, (rounds - 1) as nat)
    }
}

/// Number of bits needed to write `x` in binary: the smallest `j` with
/// `2^j > x`.
pub open spec fn bit_width(x: nat) -> nat
    decreases x,
{
    if x == 0 {
        0
    } else {
        1 + bit_width(x / 2)
    }
}

/// `bit_width(x)` is the smallest `j` with `2^j > x`: two to it exceeds
/// `x`, and for positive `x` two to one less does not.
pub proof fn lemma_bit_width_bounds(x: nat)
    ensures
        x < pow2(bit_width(x)),
        x >= 1 ==> pow2((bit_width(x) - 1) as nat) <= x,
    decreases x,
{
    if x == 0 {
        lemma_pow2_pos(0);
    } else {
        lemma_bit_width_bounds(x / 2);
        lemma_pow2_unfold(bit_width(x));
        if x / 2 >= 1 {
            lemma_pow2_unfold((bit_width(x) - 1) as nat);
        } else {
            assert(bit_width(x) == 1);
            assert(pow2(0) == 1) by {
                lemma2_to64();
            }
        }
    }
}

/// Any `j` with `2^(j-1) <= x < 2^j` is `bit_width(x)`.
pub proof fn lemma_bit_width_unique(x: nat, j: nat)
    requires
        x >= 1,
        j >= 1,
        pow2((j - 1) as nat) <= x,
        x < pow2(j),
    ensures
        j == bit_width(x),
{
    lemma_bit_width_bounds(x);
    let w = bit_width(x);
    if j < w {
        lemma_pow2_subtracts(j, (w - 1) as nat);
        if j <= w - 1 {
            lemma_pow2_strictly_increases(j, w) ;
            if j < w - 1 {
                lemma_pow2_strictly_increases(j, (w - 1) as nat);
            }
            assert(pow2((w - 1) as nat) >= pow2(j));
            assert(x < pow2(j));
            assert(pow2((w - 1) as nat) <= x);
            assert(false);
        }
    }
    if j > w {
        if (j - 1) as nat >= w {
            if (j - 1) as nat > w {
                lemma_pow2_strictly_increases(w, (j - 1) as nat);
            }
            assert(pow2((j - 1) as nat) >= pow2(w));
            assert(x < pow2(w));
            assert(pow2((j - 1) as nat) <= x);
            assert(false);
        }
    }
}

/// A variable-length integer spans at least one byte and at most the
/// permitted number of bytes.
pub proof fn lemma_var_int_size_pos(data: Seq<u8>, pos: nat, rounds: nat)
    ensures
        1 <= var_int_size(data, pos, rounds),
        var_int_size(data, pos, rounds) <= (if rounds < 1 {
            1nat
        } else {
            rounds
        }),
    decreases rounds,
{
    if rounds <= 1 {
    } else if bits_val(data, pos, 8) < 128 {
    } else {
        lemma_var_int_size_pos(data, pos + 8, (rounds - 1) as nat);
    }
}

/// The `count` bytes of the stream starting at bit position `pos`.
pub open spec fn stream_bytes(data: Seq<u8>, pos: nat, count: nat) -> Seq<u8> {
    Seq::new(count, |j: int| bits_val(data, (pos + 8 * j) as nat, 8) as u8)
}

/// The bytes of a fixed-width nul-padded string field with the trailing
/// zero padding removed.
pub open spec fn fixed_str_bytes(data: Seq<u8>, pos: nat, nbytes: nat) -> Seq<u8> {
    stream_bytes(data, pos, nbytes).take(trim_len(stream_bytes(data, pos, nbytes)) as int)
}

/// A fixed-width nul-padded string field: the characters its bytes spell
/// as UTF-8 once the trailing zero padding is removed.
pub open spec fn fixed_str_view(data: Seq<u8>, pos: nat, nbytes: nat) -> Seq<char> {
    decode_utf8(fixed_str_bytes(data, pos, nbytes))
}

/// Scans for a zero byte from bit position `pos`: `Some(k)` when the
/// stream holds `k` nonzero bytes and then a zero byte, all within
/// `bitlen`; `None` when the buffer ends first.
pub open spec fn nul_scan(data: Seq<u8>, pos: nat, bitlen: nat) -> Option<nat>
    decreases bitlen - pos,
{
    if pos + 8 > bitlen {
        None
    } else if bits_val(data, pos, 8) == 0 {
        Some(0)
    } else {
        match nul_scan(data, pos + 8, bitlen) {
            Some(k) => Some((k + 1) as nat),
            None => None,
        }
    }
}

/// One nul-terminated string at bit position `pos`: the characters its
/// bytes spell as UTF-8 and the bit position just past the consumed
/// terminator, or `None` when the buffer ends before a zero byte or the
/// bytes are not well-formed UTF-8.
pub open spec fn str_scan(data: Seq<u8>, pos: nat, bitlen: nat) -> Option<(Seq<char>, nat)> {
    match nul_scan(data, pos, bitlen) {
        Some(k) => if valid_utf8(stream_bytes(data, pos, k)) {
            Some((decode_utf8(stream_bytes(data, pos, k)), (pos + 8 * (k + 1)) as nat))
        } else {
            None
        },
        None => None,
    }
}

/// A found zero byte lies within the buffer: `nul_scan` only answers
/// `Some(k)` when the terminator's last bit is in bounds.
pub proof fn lemma_nul_scan_in_bounds(data: Seq<u8>, pos: nat, bitlen: nat)
    requires
        nul_scan(data, pos, bitlen) is Some,
    ensures
        pos + 8 * (nul_scan(data, pos, bitlen)->Some_0 + 1) <= bitlen,
    decreases bitlen - pos,
{
    if pos + 8 > bitlen {
    } else if bits_val(data, pos, 8) == 0 {
    } else {
        lemma_nul_scan_in_bounds(data, pos + 8, bitlen);
    }
}

/// Length of `bytes` once trailing zero bytes are removed.
pub open spec fn trim_len(bytes: Seq<u8>) -> nat
    decreases bytes.len(),
{
    if bytes.len() == 0 {
        0
    } else if bytes[bytes.len() - 1] == 0 {
        trim_len(bytes.drop_last())
    } else {
        bytes.len()
    }
}

/// `nul_scan` finds the first zero byte: `k` nonzero bytes followed by an
/// in-bounds zero byte pin its result to `Some(k)`.
pub proof fn lemma_nul_scan_found(data: Seq<u8>, pos: nat, bitlen: nat, k: nat)
    requires
        forall|j: nat| j < k ==> #[trigger] bits_val(data, (pos + 8 * j) as nat, 8) != 0,
        pos + 8 * k + 8 <= bitlen,
        bits_val(data, (pos + 8 * k) as nat, 8) == 0,
    ensures
        nul_scan(data, pos, bitlen) == Some(k),
    decreases k,
{
    if k == 0 {
    } else {
        assert(bits_val(data, (pos + 8 * 0) as nat, 8) != 0);
        assert forall|j: nat| j < k - 1 implies #[trigger] bits_val(data, (pos + 8 + 8 * j) as nat, 8)
            != 0 by {
            assert(bits_val(data, (pos + 8 * (j + 1)) as nat, 8) != 0);
        }
        lemma_nul_scan_found(data, pos + 8, bitlen, (k - 1) as nat);
    }
}

/// `nul_scan` reports `None` when the buffer ends before any zero byte:
/// `k` nonzero bytes and no room for one more byte mean no zero byte is
/// found.
pub proof fn lemma_nul_scan_oob(data: Seq<u8>, pos: nat, bitlen: nat, k: nat)
    requires
        forall|j: nat| j < k ==> #[trigger] bits_val(data, (pos + 8 * j) as nat, 8) != 0,
        pos + 8 * k <= bitlen,
        pos + 8 * k + 8 > bitlen,
    ensures
        nul_scan(data, pos, bitlen) is None,
    decreases k,
{
    if k == 0 {
    } else {
        assert(bits_val(data, (pos + 8 * 0) as nat, 8) != 0);
        assert forall|j: nat| j < k - 1 implies #[trigger] bits_val(data, (pos + 8 + 8 * j) as nat, 8)
            != 0 by {
            assert(bits_val(data, (pos + 8 * (j + 1)) as nat, 8) != 0);
        }
        lemma_nul_scan_oob(data, pos + 8, bitlen, (k - 1) as nat);
    }
}

/// When everything from index `end` on is zero, trimming ignores it.
pub proof fn lemma_trim_take(bytes: Seq<u8>, end: nat)
    requires
        end <= bytes.len(),
        forall|j: int| end <= j < bytes.len() ==> bytes[j] == 0,
    ensures
        trim_len(bytes) == trim_len(bytes.take(end as int)),
    decreases bytes.len() - end,
{
    if bytes.len() == end {
        assert(bytes.take(end as int) =~= bytes);
    } else {
        assert(bytes[bytes.len() - 1] == 0);
        lemma_trim_take(bytes.drop_last(), end);
        assert(bytes.drop_last().take(end as int) =~= bytes.take(end as int));
    }
}

/// A bit field is bounded by two to its width.
pub proof fn lemma_bits_val_bound(data: Seq<u8>, pos: nat, n: nat)
    ensures
        bits_val(data, pos, n) < pow2(n),
    decreases n,
{
    if n == 0 {
        lemma_pow2_pos(0);
        assert(pow2(0) == 1) by {
            lemma2_to64();
        }
    } else {
        lemma_bits_val_bound(data, pos + 1, (n - 1) as nat);
        lemma_pow2_unfold(n);
    }
}

/// Reading a packed field of width `a + b` is the same as reading its low
/// `a` bits and its high `b` bits separately: the values compose as
/// `low + 2^a * high`. This is the law behind sequential reads recovering
/// exactly the values that were packed into a buffer, whatever the split of
/// the widths.
pub proof fn lemma_bits_val_split(data: Seq<u8>, pos: nat, a: nat, b: nat)
    ensures
        bits_val(data, pos, a + b) == bits_val(data, pos, a) + pow2(a) * bits_val(
            data,
            (pos + a) as nat,
            b,
        ),
    decreases a,
{
    if a == 0 {
        assert(pow2(0) == 1) by {
            lemma2_to64();
        }
    } else {
        lemma_bits_val_split(data, pos + 1, (a - 1) as nat, b);
        lemma_pow2_unfold(a);
        let y = bits_val(data, (pos + a) as nat, b);
        lemma_mul_is_associative(2, pow2((a - 1) as nat) as int, y as int);
    }
}

/// Writing two values into adjacent bit fields and reading the fields back
/// in sequence recovers exactly the original values: when the `a + b` bits
/// at `pos` hold `v1 + 2^a * v2` with `v1` and `v2` in range, the first
/// `a` bits read as `v1` and the next `b` bits as `v2`. Applied
/// repeatedly, any sequence of packed fields is recovered by sequential
/// reads of the same widths.
pub proof fn lemma_packed_fields_recovered(
    data: Seq<u8>,
    pos: nat,
    a: nat,
    b: nat,
    v1: nat,
    v2: nat,
)
    requires
        v1 < pow2(a),
        v2 < pow2(b),
        bits_val(data, pos, a + b) == v1 + pow2(a) * v2,
    ensures
        bits_val(data, pos, a) == v1,
        bits_val(data, (pos + a) as nat, b) == v2,
{
    lemma_bits_val_split(data, pos, a, b);
    lemma_bits_val_bound(data, pos, a);
    lemma_pow2_pos(a);
    let x = bits_val(data, pos, a);
    let y = bits_val(data, (pos + a) as nat, b);
    assert(v1 == (v1 + pow2(a) * v2) % pow2(a) && v2 == (v1 + pow2(a) * v2) / pow2(a)) by {
        lemma_mul_is_commutative(pow2(a) as int, v2 as int);
        lemma_fundamental_div_mod_converse(
            (v1 + pow2(a) * v2) as int,
            pow2(a) as int,
            v2 as int,
            v1 as int,
        );
    }
    assert(x == (x + pow2(a) * y) % pow2(a) && y == (x + pow2(a) * y) / pow2(a)) by {
        lemma_mul_is_commutative(pow2(a) as int, y as int);
        lemma_fundamental_div_mod_converse(
            (x + pow2(a) * y) as int,
            pow2(a) as int,
            y as int,
            x as int,
        );
    }
}

/// The `n` bits starting at offset `j` inside byte `k` are the bits of that
/// byte's value shifted down by `j` and cut to width `n`.
pub proof fn lemma_bits_val_in_byte(data: Seq<u8>, k: nat, j: nat, n: nat)
    requires
        j + n <= 8,
    ensures
        bits_val(data, 8 * k + j, n) == ((data[k as int] as nat) / pow2(j)) % pow2(n),
    decreases n,
{
    let d = data[k as int] as nat;
    lemma_pow2_pos(j);
    lemma_pow2_pos(n);
    if n == 0 {
        assert(pow2(0) == 1) by {
            lemma2_to64();
        }
    } else {
        assert((8 * k + j) / 8 == k && (8 * k + j) % 8 == j) by {
            lemma_fundamental_div_mod_converse((8 * k + j) as int, 8, k as int, j as int);
        }
        assert(stream_bit(data, 8 * k + j) == (d / pow2(j)) % 2);
        lemma_bits_val_in_byte(data, k, j + 1, (n - 1) as nat);
        assert(8 * k + (j + 1) == (8 * k + j) + 1);
        let x = d / pow2(j);
        // x / 2 == d / pow2(j + 1)
        assert(x / 2 == d / pow2(j + 1)) by {
            lemma_div_denominator(d as int, pow2(j) as int, 2);
            lemma_pow2_adds(j, 1);
            assert(pow2(1) == 2) by {
                lemma2_to64();
            }
        }
        // x % pow2(n) == x % 2 + 2 * ((x / 2) % pow2(n - 1))
        assert(x % pow2(n) == 2 * ((x / 2) % pow2((n - 1) as nat)) + x % 2) by {
            lemma_pow2_pos((n - 1) as nat);
            lemma_mod_breakdown(x as int, 2, pow2((n - 1) as nat) as int);
            lemma_pow2_unfold(n);
        }
    }
}

/// A whole little-endian word is the same value as the bit field covering
/// its bytes.
pub proof fn lemma_word_le_is_bits_val(data: Seq<u8>, start: nat, count: nat)
    ensures
        word_le(data, start, count) == bits_val(data, 8 * start, 8 * count),
    decreases count,
{
    if count == 0 {
    } else {
        lemma_word_le_is_bits_val(data, start + 1, (count - 1) as nat);
        lemma_bits_val_split(data, 8 * start, 8, (8 * (count - 1)) as nat);
        lemma_bits_val_in_byte(data, start, 0, 8);
        assert(pow2(0) == 1 && pow2(8) == 256) by {
            lemma2_to64();
        }
        assert((data[start as int] as nat) / 1 == data[start as int] as nat);
        assert((data[start as int] as nat) % 256 == data[start as int] as nat);
        assert(8 * start + 8 == 8 * (start + 1));
        assert(8 * count - 8 == 8 * (count - 1));
    }
}

/// Extracting from a cached 64-bit window: shifting the window's value down
/// by `off` and cutting to `n` bits yields exactly the stream's bits at
/// position `8 * block + off`.
pub proof fn lemma_window_extract(data: Seq<u8>, block: nat, off: nat, n: nat)
    requires
        off + n <= 64,
    ensures
        (word_le(data, block, 8) / pow2(off)) % pow2(n) == bits_val(
            data,
            (8 * block + off) as nat,
            n,
        ),
{
    let w = word_le(data, block, 8);
    let rest = (64 - off - n) as nat;
    let lo = bits_val(data, 8 * block, off);
    let mid = bits_val(data, (8 * block + off) as nat, n);
    let hi = bits_val(data, (8 * block + off + n) as nat, rest);
    lemma_word_le_is_bits_val(data, block, 8);
    lemma_bits_val_split(data, 8 * block, off, (n + rest) as nat);
    lemma_bits_val_split(data, (8 * block + off) as nat, n, rest);
    lemma_bits_val_bound(data, 8 * block, off);
    lemma_bits_val_bound(data, (8 * block + off) as nat, n);
    lemma_pow2_pos(off);
    lemma_pow2_pos(n);
    assert(w == lo + pow2(off) * (mid + pow2(n) * hi));
    assert(w / pow2(off) == mid + pow2(n) * hi && lo == w % pow2(off)) by {
        lemma_mul_is_commutative(pow2(off) as int, (mid + pow2(n) * hi) as int);
        lemma_fundamental_div_mod_converse(
            w as int,
            pow2(off) as int,
            (mid + pow2(n) * hi) as int,
            lo as int,
        );
    }
    assert((mid + pow2(n) * hi) % pow2(n) == mid) by {
        lemma_mul_is_commutative(pow2(n) as int, hi as int);
        lemma_fundamental_div_mod_converse(
            (mid + pow2(n) * hi) as int,
            pow2(n) as int,
            hi as int,
            mid as int,
        );
    }
}

} // verus!
