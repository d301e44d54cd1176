//! 256-bit unsigned integers for difficulty targets.
//!
//! A `U256` holds four little-endian 64-bit limbs. Contracts speak of
//! `to_nat`, the mathematical value of the limbs, so callers reason
//! about ordinary integers.

use vstd::prelude::*;

verus! {

/// 2^64, 2^128 and 2^192, the limb place values.
pub open spec fn p64() -> int {
    0x10000000000000000int
}

pub open spec fn p128() -> int {
    0x100000000000000000000000000000000int
}

pub open spec fn p192() -> int {
    0x1000000000000000000000000000000000000000000000000int
}

/// 2^256, one past the largest representable value.
pub open spec fn p256() -> int {
    0x10000000000000000000000000000000000000000000000000000000000000000int
}

/// 256^e.
pub open spec fn pow256(e: nat) -> int
    decreases e,
{
    if e == 0 {
        1
    } else {
        256 * pow256((e - 1) as nat)
    }
}

/// A 256-bit unsigned integer; `w0` is the least significant limb.
#[derive(Clone, Copy, PartialEq, Eq, Debug, Structural)]
pub struct U256 {
    pub w0: u64,
    pub w1: u64,
    pub w2: u64,
    pub w3: u64,
}

/// The value of 32 little-endian bytes starting at `off`, grouped as
/// one 64-bit limb per 8 bytes.
pub open spec fn le8_at(s: Seq<u8>, off: int) -> int {
    s[off] + s[off + 1] * 0x100 + s[off + 2] * 0x10000 + s[off + 3] * 0x1000000
        + s[off + 4] * 0x100000000 + s[off + 5] * 0x10000000000
        + s[off + 6] * 0x1000000000000 + s[off + 7] * 0x100000000000000
}

/// The big-integer value of a 32-byte little-endian string: byte `i`
/// carries weight 256^i. This is Bitcoin's convention for reading a
/// block hash as a number.
pub open spec fn le_bytes_value(s: Seq<u8>) -> int {
    le8_at(s, 0) + le8_at(s, 8) * p64() + le8_at(s, 16) * p128() + le8_at(s, 24) * p192()
}

impl U256 {
    /// The mathematical value of this integer.
    pub open spec fn to_nat(self) -> int {
        self.w0 + self.w1 * p64() + self.w2 * p128() + self.w3 * p192()
    }

    /// Reads 32 little-endian bytes as a 256-bit integer.
    pub fn from_le_bytes(b: &Vec<u8>) -> (r: U256)
        requires
            b.len() == 32,
        ensures
            r.to_nat() == le_bytes_value(b@),
    {
        U256 {
            w0: limb_from_le(b, 0),
            w1: limb_from_le(b, 8),
            w2: limb_from_le(b, 16),
            w3: limb_from_le(b, 24),
        }
    }

    /// `self <= other` on the mathematical values.
    pub fn le(&self, other: &U256) -> (r: bool)
        ensures
            r == (self.to_nat() <= other.to_nat()),
    {
        proof {
            lemma_limb_order(*self, *other);
        }
        if self.w3 != other.w3 {
            self.w3 < other.w3
        } else if self.w2 != other.w2 {
            self.w2 < other.w2
        } else if self.w1 != other.w1 {
            self.w1 < other.w1
        } else {
            self.w0 <= other.w0
        }
    }

    /// Multiplies by 256, i.e. shifts one byte towards the top.
    pub fn shl_byte(&self) -> (r: U256)
        requires
            self.to_nat() * 256 < p256(),
        ensures
            r.to_nat() == self.to_nat() * 256,
    {
        let r = U256 {
            w0: (self.w0 % 0x100000000000000) * 0x100,
            w1: (self.w1 % 0x100000000000000) * 0x100 + self.w0 / 0x100000000000000,
            w2: (self.w2 % 0x100000000000000) * 0x100 + self.w1 / 0x100000000000000,
            w3: (self.w3 % 0x100000000000000) * 0x100 + self.w2 / 0x100000000000000,
        };
        proof {
            assert(self.w3 < 0x100000000000000) by {
                if self.w3 >= 0x100000000000000 {
                    assert(self.to_nat() >= self.w3 * p192());
                    assert(self.w3 * p192() >= 0x100000000000000 * p192()) by (nonlinear_arith)
                        requires
                            self.w3 >= 0x100000000000000,
                    ;
                }
            };
            assert(r.to_nat() == self.to_nat() * 256) by (nonlinear_arith)
                requires
                    r.w0 == (self.w0 % 0x100000000000000) * 0x100,
                    r.w1 == (self.w1 % 0x100000000000000) * 0x100 + self.w0 / 0x100000000000000,
                    r.w2 == (self.w2 % 0x100000000000000) * 0x100 + self.w1 / 0x100000000000000,
                    r.w3 == (self.w3 % 0x100000000000000) * 0x100 + self.w2 / 0x100000000000000,
                    self.w3 < 0x100000000000000,
            ;
        }
        r
    }
}

/// One limb, read from 8 little-endian bytes starting at `off`.
fn limb_from_le(b: &Vec<u8>, off: usize) -> (r: u64)
    requires
        off + 8 <= b.len(),
    ensures
        r == le8_at(b@, off as int),
{
    b[off] as u64 + b[off + 1] as u64 * 0x100 + b[off + 2] as u64 * 0x10000 + b[off + 3] as u64
        * 0x1000000 + b[off + 4] as u64 * 0x100000000 + b[off + 5] as u64 * 0x10000000000 + b[off
        + 6] as u64 * 0x1000000000000 + b[off + 7] as u64 * 0x100000000000000
}

/// Limb-wise lexicographic order agrees with the order of the values.
proof fn lemma_limb_order(a: U256, b: U256)
    ensures
        a.w3 < b.w3 ==> a.to_nat() < b.to_nat(),
        a.w3 == b.w3 && a.w2 < b.w2 ==> a.to_nat() < b.to_nat(),
        a.w3 == b.w3 && a.w2 == b.w2 && a.w1 < b.w1 ==> a.to_nat() < b.to_nat(),
        a.w3 == b.w3 && a.w2 == b.w2 && a.w1 == b.w1 ==> (a.to_nat() <= b.to_nat() <==> a.w0
            <= b.w0),
{
    if a.w3 < b.w3 {
        assert(a.to_nat() < b.to_nat()) by (nonlinear_arith)
            requires
                a.w3 < b.w3,
                a.w0 < 0x10000000000000000int,
                a.w1 < 0x10000000000000000int,
                a.w2 < 0x10000000000000000int,
                b.w1 >= 0,
                b.w2 >= 0,
                b.w0 >= 0,
        ;
    }
    if a.w3 == b.w3 && a.w2 < b.w2 {
        assert(a.to_nat() < b.to_nat()) by (nonlinear_arith)
            requires
                a.w3 == b.w3,
                a.w2 < b.w2,
                a.w0 < 0x10000000000000000int,
                a.w1 < 0x10000000000000000int,
                b.w1 >= 0,
                b.w0 >= 0,
        ;
    }
    if a.w3 == b.w3 && a.w2 == b.w2 && a.w1 < b.w1 {
        assert(a.to_nat() < b.to_nat()) by (nonlinear_arith)
            requires
                a.w3 == b.w3,
                a.w2 == b.w2,
                a.w1 < b.w1,
                a.w0 < 0x10000000000000000int,
                b.w0 >= 0,
        ;
    }
}

} // verus!
