//! Small shared helpers: the three-component vector carried by several
//! packet fields, the bit-length helper that sizes string-table entry
//! counts, and the exact integer core of the angle conversion.

use vstd::prelude::*;
use vstd::arithmetic::power2::*;
use vstd::bits::{lemma_u64_pow2_no_overflow, lemma_u64_shl_is_mul};

verus! {

/// A three-component vector.
#[derive(Debug, Clone, Copy, PartialEq, Eq, Structural)]
pub struct Vec3<T> {
    pub x: T,
    pub y: T,
    pub z: T,
}

impl<T> Vec3<T> {
    /// The components in x, y, z order.
    pub fn as_vec(&self) -> (r: Vec<&T>)
        ensures
            r@.len() == 3,
            r@[0] == &self.x,
            r@[1] == &self.y,
            r@[2] == &self.z,
    {
        let mut v: Vec<&T> = Vec::new();
        v.push(&self.x);
        v.push(&self.y);
        v.push(&self.z);
        v
    }
}

/// The smallest `j` with `2^j > x`, i.e. one more than the index of the
/// highest set bit. Sizes the entry-count field of a string table from its
/// declared maximum number of entries.
pub fn log2_of_x_plus_one(x: usize) -> (r: usize)
    requires
        1 <= x < 0x1_0000_0000,
    ensures
        1 <= r <= 32,
        pow2((r - 1) as nat) <= x,
        x < pow2(r as nat),
{
    let xv: u64 = x as u64;
    let mut j: usize = 31;
    proof {
        assert(pow2(32) == 0x1_0000_0000) by {
            lemma2_to64();
        }
    }
    loop
        invariant
            j <= 31,
            1 <= xv < 0x1_0000_0000,
            xv == x,
            (xv as nat) < pow2((j + 1) as nat),
        decreases j,
    {
        proof {
            lemma_u64_pow2_no_overflow(j as nat);
            lemma_u64_shl_is_mul(1u64, j as u64);
            vstd::arithmetic::mul::lemma_mul_basics(pow2(j as nat) as int);
        }
        if xv >= (1u64 << (j as u64)) {
            proof {
                lemma_pow2_unfold((j + 1) as nat);
            }
            return j + 1;
        }
        proof {
            if j == 0 {
                assert(pow2(0) == 1) by {
                    lemma2_to64();
                }
                assert(false);
            }
        }
        j = j - 1;
    }
}

/// The exact integer core of the raw-angle-to-degrees conversion: a raw
/// 16-bit angle field decodes to `raw * 360 / 65536` degrees, and this
/// returns the numerator `raw * 360` unreduced, so the caller divides by
/// 65536 at presentation time without any loss here.
pub fn angle_scaled_degrees(raw: i16) -> (r: i32)
    ensures
        r as int == (raw as int) * 360,
{
    (raw as i32) * 360
}

} // verus!
