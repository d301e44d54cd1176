//! The 80-byte Bitcoin block header wire format.
//!
//! Layout, little-endian throughout: version (4 bytes), previous block
//! hash (32), Merkle root (32), timestamp (4), compact difficulty bits
//! (4), nonce (4).

use vstd::prelude::*;
use vstd::arithmetic::div_mod::lemma_fundamental_div_mod_converse;
use crate::errors::Error;
use crate::hashing::{clone_bytes, concat_bytes, sha256d, sha256d_spec};

verus! {

/// The length of a serialized block header.
pub const HEADER_SIZE: usize = 80;

/// The value of 4 little-endian bytes starting at `off`.
pub open spec fn le4_at(s: Seq<u8>, off: int) -> int {
    s[off] + s[off + 1] * 0x100 + s[off + 2] * 0x10000 + s[off + 3] * 0x1000000
}

/// The 4 little-endian bytes of a 32-bit word.
pub open spec fn le_bytes_of_u32(x: u32) -> Seq<u8> {
    seq![
        (x % 0x100) as u8,
        ((x / 0x100) % 0x100) as u8,
        ((x / 0x10000) % 0x100) as u8,
        ((x / 0x1000000) % 0x100) as u8,
    ]
}

/// A parsed block header. The version word is kept as the raw
/// little-endian 32-bit field.
#[derive(Debug)]
pub struct BlockHeader {
    pub version: u32,
    pub prev_hash: Vec<u8>,
    pub merkle_root: Vec<u8>,
    pub timestamp: u32,
    pub bits: u32,
    pub nonce: u32,
}

impl BlockHeader {
    /// Both hash fields hold exactly 32 bytes.
    pub open spec fn wf(self) -> bool {
        self.prev_hash@.len() == 32 && self.merkle_root@.len() == 32
    }

    /// The unique 80-byte wire form of this header.
    pub open spec fn encoded(self) -> Seq<u8> {
        le_bytes_of_u32(self.version) + self.prev_hash@ + self.merkle_root@ + le_bytes_of_u32(
            self.timestamp,
        ) + le_bytes_of_u32(self.bits) + le_bytes_of_u32(self.nonce)
    }

    /// The header's fields are exactly those encoded in `s`.
    pub open spec fn parsed_from(self, s: Seq<u8>) -> bool {
        &&& s.len() == 80
        &&& self.version == le4_at(s, 0)
        &&& self.prev_hash@ == s.subrange(4, 36)
        &&& self.merkle_root@ == s.subrange(36, 68)
        &&& self.timestamp == le4_at(s, 68)
        &&& self.bits == le4_at(s, 72)
        &&& self.nonce == le4_at(s, 76)
    }

    /// Parses an 80-byte serialized header; any other length is
    /// rejected as `InvalidHeaderSize`. A parsed header re-encodes to
    /// the exact input bytes.
    pub fn decode(bytes: &Vec<u8>) -> (r: Result<BlockHeader, Error>)
        ensures
            bytes@.len() == 80 ==> r is Ok && r->Ok_0.wf() && r->Ok_0.parsed_from(bytes@)
                && r->Ok_0.encoded() == bytes@,
            bytes@.len() != 80 ==> r == Err::<BlockHeader, Error>(Error::InvalidHeaderSize),
    {
        if bytes.len() != HEADER_SIZE {
            return Err(Error::InvalidHeaderSize);
        }
        let version = u32_from_le(bytes, 0);
        let prev_hash = copy_range(bytes, 4, 36);
        let merkle_root = copy_range(bytes, 36, 68);
        let timestamp = u32_from_le(bytes, 68);
        let bits = u32_from_le(bytes, 72);
        let nonce = u32_from_le(bytes, 76);
        let h = BlockHeader { version, prev_hash, merkle_root, timestamp, bits, nonce };
        proof {
            lemma_parsed_from_encoded(h, bytes@);
        }
        Ok(h)
    }

    /// Serializes the header to its 80-byte wire form: the exact
    /// inverse of `decode`.
    pub fn encode(&self) -> (r: Vec<u8>)
        requires
            self.wf(),
        ensures
            r@ == self.encoded(),
            r@.len() == 80,
            self.parsed_from(r@),
    {
        let mut head: Vec<u8> = Vec::new();
        push_u32_le(&mut head, self.version);
        let with_prev = concat_bytes(&head, &self.prev_hash);
        let mut out = concat_bytes(&with_prev, &self.merkle_root);
        push_u32_le(&mut out, self.timestamp);
        push_u32_le(&mut out, self.bits);
        push_u32_le(&mut out, self.nonce);
        proof {
            assert(out@ =~= self.encoded());
            lemma_encoded_parses(*self);
        }
        out
    }

    /// The block id: double SHA-256 of the serialized header.
    pub fn block_hash(&self) -> (r: Vec<u8>)
        requires
            self.wf(),
        ensures
            r@ == sha256d_spec(self.encoded()),
            r@.len() == 32,
    {
        let enc = self.encode();
        sha256d(&enc)
    }

    /// Field-wise sameness of two headers; their wire forms agree.
    pub open spec fn same_as(self, other: BlockHeader) -> bool {
        &&& self.version == other.version
        &&& self.prev_hash@ == other.prev_hash@
        &&& self.merkle_root@ == other.merkle_root@
        &&& self.timestamp == other.timestamp
        &&& self.bits == other.bits
        &&& self.nonce == other.nonce
    }

    /// A deep copy of the header.
    pub fn duplicate(&self) -> (r: BlockHeader)
        ensures
            r.same_as(*self),
    {
        BlockHeader {
            version: self.version,
            prev_hash: clone_bytes(&self.prev_hash),
            merkle_root: clone_bytes(&self.merkle_root),
            timestamp: self.timestamp,
            bits: self.bits,
            nonce: self.nonce,
        }
    }
}

/// A word equal to the little-endian value of 4 bytes has exactly
/// those bytes in its little-endian form.
proof fn lemma_u32_le_inverse(x: u32, b0: u8, b1: u8, b2: u8, b3: u8)
    requires
        x == b0 + b1 * 0x100 + b2 * 0x10000 + b3 * 0x1000000,
    ensures
        le_bytes_of_u32(x) =~= seq![b0, b1, b2, b3],
{
    let q1: int = b1 + b2 * 0x100 + b3 * 0x10000;
    let q2: int = b2 + b3 * 0x100;
    lemma_fundamental_div_mod_converse(x as int, 0x100, q1, b0 as int);
    lemma_fundamental_div_mod_converse(q1, 0x100, q2, b1 as int);
    lemma_fundamental_div_mod_converse(x as int, 0x10000, q2, b0 + b1 * 0x100);
    lemma_fundamental_div_mod_converse(q2, 0x100, b3 as int, b2 as int);
    lemma_fundamental_div_mod_converse(x as int, 0x1000000, b3 as int, b0 + b1 * 0x100 + b2 * 0x10000);
    lemma_fundamental_div_mod_converse(b3 as int, 0x100, 0, b3 as int);
}

/// A header whose fields were read from `s` re-encodes to `s`.
proof fn lemma_parsed_from_encoded(h: BlockHeader, s: Seq<u8>)
    requires
        h.wf(),
        h.parsed_from(s),
    ensures
        h.encoded() =~= s,
{
    lemma_u32_le_inverse(h.version, s[0], s[1], s[2], s[3]);
    lemma_u32_le_inverse(h.timestamp, s[68], s[69], s[70], s[71]);
    lemma_u32_le_inverse(h.bits, s[72], s[73], s[74], s[75]);
    lemma_u32_le_inverse(h.nonce, s[76], s[77], s[78], s[79]);
    assert forall|i: int| 0 <= i < 80 implies h.encoded()[i] == s[i] by {
        if 4 <= i < 36 {
            assert(h.prev_hash@[i - 4] == s.subrange(4, 36)[i - 4]);
        } else if 36 <= i < 68 {
            assert(h.merkle_root@[i - 36] == s.subrange(36, 68)[i - 36]);
        }
    }
}

/// An encoded header parses back to the same fields.
proof fn lemma_encoded_parses(h: BlockHeader)
    requires
        h.wf(),
    ensures
        h.parsed_from(h.encoded()),
{
    let s = h.encoded();
    lemma_le4_of_word(h.version, s, 0);
    lemma_le4_of_word(h.timestamp, s, 68);
    lemma_le4_of_word(h.bits, s, 72);
    lemma_le4_of_word(h.nonce, s, 76);
    assert(h.prev_hash@ =~= s.subrange(4, 36));
    assert(h.merkle_root@ =~= s.subrange(36, 68));
}

/// Reading 4 bytes that are the little-endian form of `x` yields `x`.
proof fn lemma_le4_of_word(x: u32, s: Seq<u8>, off: int)
    requires
        0 <= off,
        off + 4 <= s.len(),
        s[off] == (x % 0x100) as u8,
        s[off + 1] == ((x / 0x100) % 0x100) as u8,
        s[off + 2] == ((x / 0x10000) % 0x100) as u8,
        s[off + 3] == ((x / 0x1000000) % 0x100) as u8,
    ensures
        le4_at(s, off) == x,
{
    assert((x % 0x100) + ((x / 0x100) % 0x100) * 0x100 + ((x / 0x10000) % 0x100) * 0x10000 + ((x
        / 0x1000000) % 0x100) * 0x1000000 == x) by (bit_vector);
}

/// Reads a 32-bit little-endian word at `off`.
fn u32_from_le(b: &Vec<u8>, off: usize) -> (r: u32)
    requires
        off + 4 <= b.len(),
    ensures
        r == le4_at(b@, off as int),
{
    b[off] as u32 + b[off + 1] as u32 * 0x100 + b[off + 2] as u32 * 0x10000 + b[off + 3] as u32
        * 0x1000000
}

/// Appends the 4 little-endian bytes of `x`.
fn push_u32_le(out: &mut Vec<u8>, x: u32)
    ensures
        final(out)@ == old(out)@ + le_bytes_of_u32(x),
{
    out.push((x % 0x100) as u8);
    out.push((x / 0x100 % 0x100) as u8);
    out.push((x / 0x10000 % 0x100) as u8);
    out.push((x / 0x1000000 % 0x100) as u8);
    proof {
        assert(out@ =~= old(out)@ + le_bytes_of_u32(x));
    }
}

/// Copies `b[from..to]`.
fn copy_range(b: &Vec<u8>, from: usize, to: usize) -> (r: Vec<u8>)
    requires
        from <= to <= b.len(),
    ensures
        r@ == b@.subrange(from as int, to as int),
{
    let mut out: Vec<u8> = Vec::new();
    let mut i: usize = from;
    proof {
        assert(out@ =~= b@.subrange(from as int, from as int));
    }
    while i < to
        invariant
            from <= i <= to <= b.len(),
            out@ == b@.subrange(from as int, i as int),
        decreases to - i,
    {
        out.push(b[i]);
        i = i + 1;
        proof {
            assert(out@ =~= b@.subrange(from as int, i as int));
        }
    }
    out
}

} // verus!
