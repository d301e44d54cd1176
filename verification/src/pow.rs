//! Proof-of-work validation: decoding the compact difficulty target
//! and holding a block hash to it.

use vstd::prelude::*;
use crate::errors::Error;
use crate::u256::{le_bytes_value, p256, pow256, U256};

verus! {

/// The 23-bit mantissa of a compact target.
pub open spec fn compact_mantissa(bits: u32) -> int {
    (bits & 0x007fffff) as int
}

/// The base-256 exponent of a compact target.
pub open spec fn compact_exponent(bits: u32) -> int {
    (bits >> 24) as int
}

/// The value a compact target denotes: mantissa shifted by the
/// exponent, in whole bytes.
pub open spec fn compact_value(bits: u32) -> int {
    let m = compact_mantissa(bits);
    let e = compact_exponent(bits);
    if e >= 3 {
        m * pow256((e - 3) as nat)
    } else if e == 2 {
        m / 0x100
    } else if e == 1 {
        m / 0x10000
    } else {
        m / 0x1000000
    }
}

/// A compact target is well formed when its sign bit is clear (unless
/// the mantissa is zero) and its value fits in 256 bits.
pub open spec fn compact_valid(bits: u32) -> bool {
    &&& (bits & 0x00800000 == 0 || bits & 0x007fffff == 0)
    &&& compact_value(bits) < p256()
}

/// Decodes a compact difficulty target into a full-width integer.
/// A malformed encoding is rejected as `InvalidHeaderSize`.
pub fn decode_compact(bits: u32) -> (r: Result<U256, Error>)
    ensures
        compact_valid(bits) ==> r is Ok && r->Ok_0.to_nat() == compact_value(bits),
        !compact_valid(bits) ==> r == Err::<U256, Error>(Error::InvalidHeaderSize),
{
    let m: u32 = bits & 0x007fffff;
    let e: u32 = bits >> 24;
    proof {
        assert(bits & 0x007fffff <= 0x007fffff && bits >> 24 <= 0xff) by (bit_vector);
    }
    if (bits & 0x00800000) != 0 && m != 0 {
        return Err(Error::InvalidHeaderSize);
    }
    if e < 3 {
        let v: u32 = if e == 2 {
            m / 0x100
        } else if e == 1 {
            m / 0x10000
        } else {
            m / 0x1000000
        };
        return Ok(U256 { w0: v as u64, w1: 0, w2: 0, w3: 0 });
    }
    let shift: u32 = e - 3;
    if m != 0 && (shift >= 32 || (shift == 31 && m > 0xff) || (shift == 30 && m > 0xffff)) {
        proof {
            lemma_compact_overflow(m as int, shift as nat);
        }
        return Err(Error::InvalidHeaderSize);
    }
    proof {
        lemma_compact_fits(m as int, shift as nat);
    }
    let mut acc = U256 { w0: m as u64, w1: 0, w2: 0, w3: 0 };
    let mut i: u32 = 0;
    while i < shift
        invariant
            i <= shift,
            acc.to_nat() == m * pow256(i as nat),
            m * pow256(shift as nat) < p256(),
            m <= 0x007fffff,
        decreases shift - i,
    {
        proof {
            lemma_pow256_mono((i + 1) as nat, shift as nat);
            assert(pow256((i + 1) as nat) == 256 * pow256(i as nat));
            assert(m * pow256((i + 1) as nat) <= m * pow256(shift as nat)) by (nonlinear_arith)
                requires
                    m >= 0,
                    pow256((i + 1) as nat) <= pow256(shift as nat),
            ;
            assert(m * (256 * pow256(i as nat)) == (m * pow256(i as nat)) * 256)
                by (nonlinear_arith);
        }
        acc = acc.shl_byte();
        i = i + 1;
    }
    Ok(acc)
}

/// 256^e is positive.
pub proof fn lemma_pow256_pos(e: nat)
    ensures
        pow256(e) >= 1,
    decreases e,
{
    if e > 0 {
        lemma_pow256_pos((e - 1) as nat);
    }
}

/// 256^e grows with e.
pub proof fn lemma_pow256_mono(a: nat, b: nat)
    requires
        a <= b,
    ensures
        pow256(a) <= pow256(b),
    decreases b,
{
    if a < b {
        lemma_pow256_mono(a, (b - 1) as nat);
        lemma_pow256_pos((b - 1) as nat);
    }
}


/// Concrete values of 256^e at the 256-bit boundary.
proof fn lemma_pow256_values()
    ensures
        pow256(29) == 0x10000000000000000000000000000000000000000000000000000000000int,
        pow256(30) == 0x1000000000000000000000000000000000000000000000000000000000000int,
        pow256(31) == 0x100000000000000000000000000000000000000000000000000000000000000int,
        pow256(32) == p256(),
{
    reveal_with_fuel(pow256, 33);
}

/// Within the bounds the decoder admits, the denoted value fits in
/// 256 bits.
proof fn lemma_compact_fits(m: int, shift: nat)
    requires
        0 <= m <= 0x007fffff,
        shift <= 29 || (shift == 30 && m <= 0xffff) || (shift == 31 && m <= 0xff) || m == 0,
    ensures
        m * pow256(shift) < p256(),
{
    lemma_pow256_pos(shift);
    if m == 0 {
        assert(m * pow256(shift) == 0) by (nonlinear_arith)
            requires
                m == 0,
        ;
    } else if shift <= 29 {
        lemma_pow256_mono(shift, 29);
        lemma_pow256_values();
        assert(m * pow256(shift) < p256()) by (nonlinear_arith)
            requires
                0 <= m <= 0x007fffff,
                0 < pow256(shift) <= 0x10000000000000000000000000000000000000000000000000000000000int,
        ;
    } else if shift == 30 {
        lemma_pow256_values();
        assert(m * pow256(30) < p256()) by (nonlinear_arith)
            requires
                0 <= m <= 0xffff,
                pow256(30) == 0x1000000000000000000000000000000000000000000000000000000000000int,
        ;
    } else {
        lemma_pow256_values();
        assert(m * pow256(31) < p256()) by (nonlinear_arith)
            requires
                0 <= m <= 0xff,
                pow256(31) == 0x100000000000000000000000000000000000000000000000000000000000000int,
        ;
    }
}

/// Outside those bounds, the denoted value does not fit in 256 bits.
proof fn lemma_compact_overflow(m: int, shift: nat)
    requires
        m >= 1,
        shift >= 32 || (shift == 31 && m > 0xff) || (shift == 30 && m > 0xffff),
    ensures
        m * pow256(shift) >= p256(),
{
    if shift >= 32 {
        lemma_pow256_mono(32, shift);
        lemma_pow256_values();
        assert(m * pow256(shift) >= p256()) by (nonlinear_arith)
            requires
                m >= 1,
                pow256(shift) >= p256(),
                p256() > 0,
        ;
    } else if shift == 31 {
        lemma_pow256_values();
        assert(m * pow256(31) >= p256()) by (nonlinear_arith)
            requires
                m >= 0x100,
                pow256(31) == 0x100000000000000000000000000000000000000000000000000000000000000int,
        ;
    } else {
        lemma_pow256_values();
        assert(m * pow256(30) >= p256()) by (nonlinear_arith)
            requires
                m >= 0x10000,
                pow256(30) == 0x1000000000000000000000000000000000000000000000000000000000000int,
        ;
    }
}

/// Holds a block hash, read as a little-endian big integer, to a
/// decoded difficulty target: the hash must not exceed the target.
pub fn check_proof_of_work(hash: &Vec<u8>, target: &U256) -> (r: Result<(), Error>)
    requires
        hash@.len() == 32,
    ensures
        r is Ok <==> le_bytes_value(hash@) <= target.to_nat(),
        r is Err ==> r == Err::<(), Error>(Error::LowDiff),
{
    let hv = U256::from_le_bytes(hash);
    if hv.le(target) {
        Ok(())
    } else {
        Err(Error::LowDiff)
    }
}

} // verus!
