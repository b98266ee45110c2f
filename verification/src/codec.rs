//! The stable binary codec of the store.
//!
//! Every value is laid out left to right: integers little-endian, byte
//! payloads length-prefixed, vectors count-prefixed.  For each type there is
//! a specification-level encoder and parser, an executable encoder and
//! parser proved against them, and a round-trip lemma: parsing an encoding
//! embedded anywhere in a larger buffer yields the encoded value and
//! consumes exactly its bytes.

use vstd::prelude::*;

use crate::block::{Block, BlockView, Header, UncleBlock};
use crate::capacity::Capacity;
use crate::extras::{Address, BlockExt, TransactionAddress};
use crate::hash::H256;
use crate::transaction::{
    CellInput, CellOutput, CellOutputView, OutPoint, ProposalShortId, Script, ScriptView,
    Transaction, TransactionView,
};

verus! {

// ---------------------------------------------------------------------
// little-endian integers
// ---------------------------------------------------------------------

pub open spec fn spec_enc_u16(x: u16) -> Seq<u8> {
    seq![(x & 0xff) as u8, ((x >> 8) & 0xff) as u8]
}

pub open spec fn spec_parse_u16(s: Seq<u8>, i: int) -> Option<(u16, int)> {
    if 0 <= i && i + 2 <= s.len() {
        Some((((s[i] as u16) | ((s[i + 1] as u16) << 8)) as u16, i + 2))
    } else {
        None
    }
}

pub proof fn lemma_parse_enc_u16(s: Seq<u8>, i: int, x: u16)
    requires
        0 <= i,
        i + 2 <= s.len(),
        s.subrange(i, i + 2) == spec_enc_u16(x),
    ensures
        spec_parse_u16(s, i) == Some((x, i + 2)),
{
    let b0 = s[i];
    let b1 = s[i + 1];
    assert(b0 == spec_enc_u16(x)[0]);
    assert(b1 == spec_enc_u16(x)[1]);
    assert((b0 as u16) | ((b1 as u16) << 8) == x) by (bit_vector)
        requires
            b0 == (x & 0xff) as u8,
            b1 == ((x >> 8) & 0xff) as u8,
    ;
}

pub fn enc_u16(x: u16, out: &mut Vec<u8>)
    ensures
        final(out)@ == old(out)@ + spec_enc_u16(x),
{
    out.push((x & 0xff) as u8);
    out.push(((x >> 8) & 0xff) as u8);
    proof {
        assert(out@ =~= old(out)@ + spec_enc_u16(x));
    }
}

pub fn parse_u16(s: &Vec<u8>, i: usize) -> (r: Option<(u16, usize)>)
    ensures
        match r {
            Some((x, j)) => spec_parse_u16(s@, i as int) == Some((x, j as int)),
            None => spec_parse_u16(s@, i as int) is None,
        },
{
    if i <= s.len() && s.len() - i >= 2 {
        let x = (s[i] as u16) | ((s[i + 1] as u16) << 8);
        Some((x, i + 2))
    } else {
        None
    }
}

pub open spec fn spec_enc_u32(x: u32) -> Seq<u8> {
    seq![
        (x & 0xff) as u8,
        ((x >> 8) & 0xff) as u8,
        ((x >> 16) & 0xff) as u8,
        ((x >> 24) & 0xff) as u8,
    ]
}

pub open spec fn spec_combine_u32(s: Seq<u8>, i: int) -> u32 {
    (s[i] as u32) | ((s[i + 1] as u32) << 8) | ((s[i + 2] as u32) << 16) | ((s[i + 3] as u32)
        << 24)
}

pub open spec fn spec_parse_u32(s: Seq<u8>, i: int) -> Option<(u32, int)> {
    if 0 <= i && i + 4 <= s.len() {
        Some((spec_combine_u32(s, i), i + 4))
    } else {
        None
    }
}

pub proof fn lemma_parse_enc_u32(s: Seq<u8>, i: int, x: u32)
    requires
        0 <= i,
        i + 4 <= s.len(),
        s.subrange(i, i + 4) == spec_enc_u32(x),
    ensures
        spec_parse_u32(s, i) == Some((x, i + 4)),
{
    let b0 = s[i];
    let b1 = s[i + 1];
    let b2 = s[i + 2];
    let b3 = s[i + 3];
    assert(b0 == spec_enc_u32(x)[0]);
    assert(b1 == spec_enc_u32(x)[1]);
    assert(b2 == spec_enc_u32(x)[2]);
    assert(b3 == spec_enc_u32(x)[3]);
    assert((b0 as u32) | ((b1 as u32) << 8) | ((b2 as u32) << 16) | ((b3 as u32) << 24) == x)
        by (bit_vector)
        requires
            b0 == (x & 0xff) as u8,
            b1 == ((x >> 8) & 0xff) as u8,
            b2 == ((x >> 16) & 0xff) as u8,
            b3 == ((x >> 24) & 0xff) as u8,
    ;
}

pub fn enc_u32(x: u32, out: &mut Vec<u8>)
    ensures
        final(out)@ == old(out)@ + spec_enc_u32(x),
{
    out.push((x & 0xff) as u8);
    out.push(((x >> 8) & 0xff) as u8);
    out.push(((x >> 16) & 0xff) as u8);
    out.push(((x >> 24) & 0xff) as u8);
    proof {
        assert(out@ =~= old(out)@ + spec_enc_u32(x));
    }
}

pub fn parse_u32(s: &Vec<u8>, i: usize) -> (r: Option<(u32, usize)>)
    ensures
        match r {
            Some((x, j)) => spec_parse_u32(s@, i as int) == Some((x, j as int)),
            None => spec_parse_u32(s@, i as int) is None,
        },
{
    if i <= s.len() && s.len() - i >= 4 {
        let x = (s[i] as u32) | ((s[i + 1] as u32) << 8) | ((s[i + 2] as u32) << 16) | ((s[i
            + 3] as u32) << 24);
        Some((x, i + 4))
    } else {
        None
    }
}

pub open spec fn spec_enc_u64(x: u64) -> Seq<u8> {
    seq![
        (x & 0xff) as u8,
        ((x >> 8) & 0xff) as u8,
        ((x >> 16) & 0xff) as u8,
        ((x >> 24) & 0xff) as u8,
        ((x >> 32) & 0xff) as u8,
        ((x >> 40) & 0xff) as u8,
        ((x >> 48) & 0xff) as u8,
        ((x >> 56) & 0xff) as u8,
    ]
}

pub open spec fn spec_combine_u64(s: Seq<u8>, i: int) -> u64 {
    (s[i] as u64) | ((s[i + 1] as u64) << 8) | ((s[i + 2] as u64) << 16) | ((s[i + 3] as u64)
        << 24) | ((s[i + 4] as u64) << 32) | ((s[i + 5] as u64) << 40) | ((s[i + 6] as u64)
        << 48) | ((s[i + 7] as u64) << 56)
}

pub open spec fn spec_parse_u64(s: Seq<u8>, i: int) -> Option<(u64, int)> {
    if 0 <= i && i + 8 <= s.len() {
        Some((spec_combine_u64(s, i), i + 8))
    } else {
        None
    }
}

pub proof fn lemma_parse_enc_u64(s: Seq<u8>, i: int, x: u64)
    requires
        0 <= i,
        i + 8 <= s.len(),
        s.subrange(i, i + 8) == spec_enc_u64(x),
    ensures
        spec_parse_u64(s, i) == Some((x, i + 8)),
{
    let b0 = s[i];
    let b1 = s[i + 1];
    let b2 = s[i + 2];
    let b3 = s[i + 3];
    let b4 = s[i + 4];
    let b5 = s[i + 5];
    let b6 = s[i + 6];
    let b7 = s[i + 7];
    assert(b0 == spec_enc_u64(x)[0]);
    assert(b1 == spec_enc_u64(x)[1]);
    assert(b2 == spec_enc_u64(x)[2]);
    assert(b3 == spec_enc_u64(x)[3]);
    assert(b4 == spec_enc_u64(x)[4]);
    assert(b5 == spec_enc_u64(x)[5]);
    assert(b6 == spec_enc_u64(x)[6]);
    assert(b7 == spec_enc_u64(x)[7]);
    assert((b0 as u64) | ((b1 as u64) << 8) | ((b2 as u64) << 16) | ((b3 as u64) << 24) | ((
    b4 as u64) << 32) | ((b5 as u64) << 40) | ((b6 as u64) << 48) | ((b7 as u64) << 56) == x)
        by (bit_vector)
        requires
            b0 == (x & 0xff) as u8,
            b1 == ((x >> 8) & 0xff) as u8,
            b2 == ((x >> 16) & 0xff) as u8,
            b3 == ((x >> 24) & 0xff) as u8,
            b4 == ((x >> 32) & 0xff) as u8,
            b5 == ((x >> 40) & 0xff) as u8,
            b6 == ((x >> 48) & 0xff) as u8,
            b7 == ((x >> 56) & 0xff) as u8,
    ;
}

pub fn enc_u64(x: u64, out: &mut Vec<u8>)
    ensures
        final(out)@ == old(out)@ + spec_enc_u64(x),
{
    out.push((x & 0xff) as u8);
    out.push(((x >> 8) & 0xff) as u8);
    out.push(((x >> 16) & 0xff) as u8);
    out.push(((x >> 24) & 0xff) as u8);
    out.push(((x >> 32) & 0xff) as u8);
    out.push(((x >> 40) & 0xff) as u8);
    out.push(((x >> 48) & 0xff) as u8);
    out.push(((x >> 56) & 0xff) as u8);
    proof {
        assert(out@ =~= old(out)@ + spec_enc_u64(x));
    }
}

pub fn parse_u64(s: &Vec<u8>, i: usize) -> (r: Option<(u64, usize)>)
    ensures
        match r {
            Some((x, j)) => spec_parse_u64(s@, i as int) == Some((x, j as int)),
            None => spec_parse_u64(s@, i as int) is None,
        },
{
    if i <= s.len() && s.len() - i >= 8 {
        let x = (s[i] as u64) | ((s[i + 1] as u64) << 8) | ((s[i + 2] as u64) << 16) | ((s[i
            + 3] as u64) << 24) | ((s[i + 4] as u64) << 32) | ((s[i + 5] as u64) << 40) | ((
        s[i + 6] as u64) << 48) | ((s[i + 7] as u64) << 56);
        Some((x, i + 8))
    } else {
        None
    }
}

// ---------------------------------------------------------------------
// tri-state verification flag
// ---------------------------------------------------------------------

pub open spec fn spec_enc_opt_bool(b: Option<bool>) -> Seq<u8> {
    match b {
        None => seq![0u8],
        Some(false) => seq![1u8],
        Some(true) => seq![2u8],
    }
}

pub open spec fn spec_parse_opt_bool(s: Seq<u8>, i: int) -> Option<(Option<bool>, int)> {
    if 0 <= i && i + 1 <= s.len() {
        if s[i] == 0u8 {
            Some((None, i + 1))
        } else if s[i] == 1u8 {
            Some((Some(false), i + 1))
        } else if s[i] == 2u8 {
            Some((Some(true), i + 1))
        } else {
            None
        }
    } else {
        None
    }
}

pub proof fn lemma_parse_enc_opt_bool(s: Seq<u8>, i: int, b: Option<bool>)
    requires
        0 <= i,
        i + 1 <= s.len(),
        s.subrange(i, i + 1) == spec_enc_opt_bool(b),
    ensures
        spec_parse_opt_bool(s, i) == Some((b, i + 1)),
{
    assert(s[i] == spec_enc_opt_bool(b)[0]);
}

pub fn enc_opt_bool(b: &Option<bool>, out: &mut Vec<u8>)
    ensures
        final(out)@ == old(out)@ + spec_enc_opt_bool(*b),
{
    match b {
        None => out.push(0u8),
        Some(false) => out.push(1u8),
        Some(true) => out.push(2u8),
    }
    proof {
        assert(out@ =~= old(out)@ + spec_enc_opt_bool(*b));
    }
}

pub fn parse_opt_bool(s: &Vec<u8>, i: usize) -> (r: Option<(Option<bool>, usize)>)
    ensures
        match r {
            Some((b, j)) => spec_parse_opt_bool(s@, i as int) == Some((b, j as int)),
            None => spec_parse_opt_bool(s@, i as int) is None,
        },
{
    if i < s.len() {
        if s[i] == 0u8 {
            Some((None, i + 1))
        } else if s[i] == 1u8 {
            Some((Some(false), i + 1))
        } else if s[i] == 2u8 {
            Some((Some(true), i + 1))
        } else {
            None
        }
    } else {
        None
    }
}

// ---------------------------------------------------------------------
// a helper for composite round trips
// ---------------------------------------------------------------------

/// A chunk of an encoding embedded in `s` is itself embedded in `s`.
pub proof fn lemma_chunk(s: Seq<u8>, i: int, enc: Seq<u8>, off: int, part: Seq<u8>)
    requires
        0 <= i,
        i + enc.len() <= s.len(),
        s.subrange(i, i + enc.len()) == enc,
        0 <= off,
        off + part.len() <= enc.len(),
        enc.subrange(off, off + part.len()) == part,
    ensures
        s.subrange(i + off, i + off + part.len()) == part,
{
    assert(s.subrange(i + off, i + off + part.len()) =~= enc.subrange(off, off + part.len()));
}

// ---------------------------------------------------------------------
// 256-bit hashes
// ---------------------------------------------------------------------

pub open spec fn spec_enc_h256(h: H256) -> Seq<u8> {
    spec_enc_u64(h.w0) + spec_enc_u64(h.w1) + spec_enc_u64(h.w2) + spec_enc_u64(h.w3)
}

pub open spec fn spec_parse_h256(s: Seq<u8>, i: int) -> Option<(H256, int)> {
    match spec_parse_u64(s, i) {
        Some((w0, i1)) => match spec_parse_u64(s, i1) {
            Some((w1, i2)) => match spec_parse_u64(s, i2) {
                Some((w2, i3)) => match spec_parse_u64(s, i3) {
                    Some((w3, i4)) => Some((H256 { w0, w1, w2, w3 }, i4)),
                    None => None,
                },
                None => None,
            },
            None => None,
        },
        None => None,
    }
}

pub proof fn lemma_parse_enc_h256(s: Seq<u8>, i: int, h: H256)
    requires
        0 <= i,
        i + 32 <= s.len(),
        s.subrange(i, i + 32) == spec_enc_h256(h),
    ensures
        spec_parse_h256(s, i) == Some((h, i + 32)),
{
    let enc = spec_enc_h256(h);
    assert(enc.subrange(0, 8) =~= spec_enc_u64(h.w0));
    assert(enc.subrange(8, 16) =~= spec_enc_u64(h.w1));
    assert(enc.subrange(16, 24) =~= spec_enc_u64(h.w2));
    assert(enc.subrange(24, 32) =~= spec_enc_u64(h.w3));
    lemma_chunk(s, i, enc, 0, spec_enc_u64(h.w0));
    lemma_chunk(s, i, enc, 8, spec_enc_u64(h.w1));
    lemma_chunk(s, i, enc, 16, spec_enc_u64(h.w2));
    lemma_chunk(s, i, enc, 24, spec_enc_u64(h.w3));
    lemma_parse_enc_u64(s, i, h.w0);
    lemma_parse_enc_u64(s, i + 8, h.w1);
    lemma_parse_enc_u64(s, i + 16, h.w2);
    lemma_parse_enc_u64(s, i + 24, h.w3);
}

pub fn enc_h256(h: &H256, out: &mut Vec<u8>)
    ensures
        final(out)@ == old(out)@ + spec_enc_h256(*h),
{
    let ghost base = out@;
    enc_u64(h.w0, out);
    enc_u64(h.w1, out);
    enc_u64(h.w2, out);
    enc_u64(h.w3, out);
    proof {
        assert(out@ =~= base + spec_enc_h256(*h));
    }
}

pub fn parse_h256(s: &Vec<u8>, i: usize) -> (r: Option<(H256, usize)>)
    ensures
        match r {
            Some((h, j)) => spec_parse_h256(s@, i as int) == Some((h, j as int)),
            None => spec_parse_h256(s@, i as int) is None,
        },
{
    match parse_u64(s, i) {
        None => None,
        Some((w0, i1)) => match parse_u64(s, i1) {
            None => None,
            Some((w1, i2)) => match parse_u64(s, i2) {
                None => None,
                Some((w2, i3)) => match parse_u64(s, i3) {
                    None => None,
                    Some((w3, i4)) => Some((H256 { w0, w1, w2, w3 }, i4)),
                },
            },
        },
    }
}

impl H256 {
    /// The 32 bytes of the digest, as stored in keys of the store.
    pub fn as_bytes(&self) -> (r: Vec<u8>)
        ensures
            r@ == spec_enc_h256(*self),
    {
        let mut out: Vec<u8> = Vec::new();
        enc_h256(self, &mut out);
        out
    }

    /// Reads a digest back from exactly 32 bytes; any other length is
    /// rejected.
    pub fn from_slice(s: &Vec<u8>) -> (r: Option<H256>)
        ensures
            r == spec_dec_h256(s@),
    {
        if s.len() != 32 {
            return None;
        }
        match parse_h256(s, 0) {
            Some((h, j)) => {
                if j == s.len() {
                    Some(h)
                } else {
                    None
                }
            },
            None => None,
        }
    }
}

/// Whole-buffer decode of a digest: the buffer is exactly one encoded hash.
pub open spec fn spec_dec_h256(s: Seq<u8>) -> Option<H256> {
    if s.len() == 32 {
        match spec_parse_h256(s, 0) {
            Some((h, j)) => if j == s.len() {
                Some(h)
            } else {
                None
            },
            None => None,
        }
    } else {
        None
    }
}

pub proof fn lemma_dec_enc_h256(h: H256)
    ensures
        spec_dec_h256(spec_enc_h256(h)) == Some(h),
{
    let enc = spec_enc_h256(h);
    assert(enc.subrange(0, 32) =~= enc);
    lemma_parse_enc_h256(enc, 0, h);
}

// ---------------------------------------------------------------------
// length-prefixed byte payloads
// ---------------------------------------------------------------------

pub open spec fn spec_enc_bytes(b: Seq<u8>) -> Seq<u8> {
    spec_enc_u64(b.len() as u64) + b
}

pub open spec fn spec_parse_bytes(s: Seq<u8>, i: int) -> Option<(Seq<u8>, int)> {
    match spec_parse_u64(s, i) {
        Some((n, j)) => if n <= usize::MAX as u64 && j + n <= s.len() {
            Some((s.subrange(j, j + n), j + n))
        } else {
            None
        },
        None => None,
    }
}

pub proof fn lemma_parse_enc_bytes(s: Seq<u8>, i: int, b: Seq<u8>)
    requires
        0 <= i,
        b.len() <= usize::MAX,
        i + spec_enc_bytes(b).len() <= s.len(),
        s.subrange(i, i + spec_enc_bytes(b).len()) == spec_enc_bytes(b),
    ensures
        spec_parse_bytes(s, i) == Some((b, i + spec_enc_bytes(b).len())),
{
    let enc = spec_enc_bytes(b);
    assert(enc.subrange(0, 8) =~= spec_enc_u64(b.len() as u64));
    lemma_chunk(s, i, enc, 0, spec_enc_u64(b.len() as u64));
    lemma_parse_enc_u64(s, i, b.len() as u64);
    assert(enc.subrange(8, enc.len() as int) =~= b);
    lemma_chunk(s, i, enc, 8, b);
    assert(s.subrange(i + 8, i + 8 + b.len()) == b);
}

pub fn enc_bytes(b: &Vec<u8>, out: &mut Vec<u8>)
    ensures
        final(out)@ == old(out)@ + spec_enc_bytes(b@),
{
    let ghost base = out@;
    enc_u64(b.len() as u64, out);
    let mut k: usize = 0;
    while k < b.len()
        invariant
            k <= b.len(),
            out@ == base + spec_enc_u64(b@.len() as u64) + b@.take(k as int),
        decreases b.len() - k,
    {
        out.push(b[k]);
        proof {
            assert(base + spec_enc_u64(b@.len() as u64) + b@.take(k + 1 as int) =~= (base
                + spec_enc_u64(b@.len() as u64) + b@.take(k as int)).push(b@[k as int]));
        }
        k = k + 1;
    }
    proof {
        assert(b@.take(b@.len() as int) =~= b@);
        assert(out@ =~= base + spec_enc_bytes(b@));
    }
}

pub fn parse_bytes(s: &Vec<u8>, i: usize) -> (r: Option<(Vec<u8>, usize)>)
    ensures
        match r {
            Some((b, j)) => spec_parse_bytes(s@, i as int) == Some((b@, j as int)),
            None => spec_parse_bytes(s@, i as int) is None,
        },
{
    match parse_u64(s, i) {
        None => None,
        Some((n, j)) => {
            if n <= usize::MAX as u64 && n as usize <= s.len() && j <= s.len() - (n as usize) {
                let n = n as usize;
                let mut b: Vec<u8> = Vec::new();
                let mut k: usize = 0;
                while k < n
                    invariant
                        k <= n,
                        j + n <= s.len(),
                        b@ == s@.subrange(j as int, j + k as int),
                    decreases n - k,
                {
                    b.push(s[j + k]);
                    proof {
                        assert(s@.subrange(j as int, j + k + 1 as int) =~= s@.subrange(
                            j as int,
                            j + k as int,
                        ).push(s@[j + k]));
                    }
                    k = k + 1;
                }
                Some((b, j + n))
            } else {
                None
            }
        },
    }
}

// ---------------------------------------------------------------------
// fixed-size composites
// ---------------------------------------------------------------------

pub open spec fn spec_enc_psid(p: ProposalShortId) -> Seq<u8> {
    spec_enc_u64(p.hi) + spec_enc_u16(p.lo)
}

pub open spec fn spec_parse_psid(s: Seq<u8>, i: int) -> Option<(ProposalShortId, int)> {
    match spec_parse_u64(s, i) {
        Some((hi, i1)) => match spec_parse_u16(s, i1) {
            Some((lo, i2)) => Some((ProposalShortId { hi, lo }, i2)),
            None => None,
        },
        None => None,
    }
}

pub proof fn lemma_parse_enc_psid(s: Seq<u8>, i: int, p: ProposalShortId)
    requires
        0 <= i,
        i + 10 <= s.len(),
        s.subrange(i, i + 10) == spec_enc_psid(p),
    ensures
        spec_parse_psid(s, i) == Some((p, i + 10)),
{
    let enc = spec_enc_psid(p);
    assert(enc.subrange(0, 8) =~= spec_enc_u64(p.hi));
    assert(enc.subrange(8, 10) =~= spec_enc_u16(p.lo));
    lemma_chunk(s, i, enc, 0, spec_enc_u64(p.hi));
    lemma_chunk(s, i, enc, 8, spec_enc_u16(p.lo));
    lemma_parse_enc_u64(s, i, p.hi);
    lemma_parse_enc_u16(s, i + 8, p.lo);
}

pub fn enc_psid(p: &ProposalShortId, out: &mut Vec<u8>)
    ensures
        final(out)@ == old(out)@ + spec_enc_psid(*p),
{
    let ghost base = out@;
    enc_u64(p.hi, out);
    enc_u16(p.lo, out);
    proof {
        assert(out@ =~= base + spec_enc_psid(*p));
    }
}

pub fn parse_psid(s: &Vec<u8>, i: usize) -> (r: Option<(ProposalShortId, usize)>)
    ensures
        match r {
            Some((p, j)) => spec_parse_psid(s@, i as int) == Some((p, j as int)),
            None => spec_parse_psid(s@, i as int) is None,
        },
{
    match parse_u64(s, i) {
        None => None,
        Some((hi, i1)) => match parse_u16(s, i1) {
            None => None,
            Some((lo, i2)) => Some((ProposalShortId { hi, lo }, i2)),
        },
    }
}

pub open spec fn spec_enc_outpoint(o: OutPoint) -> Seq<u8> {
    spec_enc_h256(o.tx_hash) + spec_enc_u32(o.index)
}

pub open spec fn spec_parse_outpoint(s: Seq<u8>, i: int) -> Option<(OutPoint, int)> {
    match spec_parse_h256(s, i) {
        Some((h, i1)) => match spec_parse_u32(s, i1) {
            Some((x, i2)) => Some((OutPoint { tx_hash: h, index: x }, i2)),
            None => None,
        },
        None => None,
    }
}

pub proof fn lemma_parse_enc_outpoint(s: Seq<u8>, i: int, o: OutPoint)
    requires
        0 <= i,
        i + 36 <= s.len(),
        s.subrange(i, i + 36) == spec_enc_outpoint(o),
    ensures
        spec_parse_outpoint(s, i) == Some((o, i + 36)),
{
    let enc = spec_enc_outpoint(o);
    assert(enc.subrange(0, 32) =~= spec_enc_h256(o.tx_hash));
    assert(enc.subrange(32, 36) =~= spec_enc_u32(o.index));
    lemma_chunk(s, i, enc, 0, spec_enc_h256(o.tx_hash));
    lemma_chunk(s, i, enc, 32, spec_enc_u32(o.index));
    lemma_parse_enc_h256(s, i, o.tx_hash);
    lemma_parse_enc_u32(s, i + 32, o.index);
}

pub fn enc_outpoint(o: &OutPoint, out: &mut Vec<u8>)
    ensures
        final(out)@ == old(out)@ + spec_enc_outpoint(*o),
{
    let ghost base = out@;
    enc_h256(&o.tx_hash, out);
    enc_u32(o.index, out);
    proof {
        assert(out@ =~= base + spec_enc_outpoint(*o));
    }
}

pub fn parse_outpoint(s: &Vec<u8>, i: usize) -> (r: Option<(OutPoint, usize)>)
    ensures
        match r {
            Some((o, j)) => spec_parse_outpoint(s@, i as int) == Some((o, j as int)),
            None => spec_parse_outpoint(s@, i as int) is None,
        },
{
    match parse_h256(s, i) {
        None => None,
        Some((h, i1)) => match parse_u32(s, i1) {
            None => None,
            Some((x, i2)) => Some((OutPoint { tx_hash: h, index: x }, i2)),
        },
    }
}

pub open spec fn spec_enc_input(c: CellInput) -> Seq<u8> {
    spec_enc_outpoint(c.previous_output)
}

pub open spec fn spec_parse_input(s: Seq<u8>, i: int) -> Option<(CellInput, int)> {
    match spec_parse_outpoint(s, i) {
        Some((o, j)) => Some((CellInput { previous_output: o }, j)),
        None => None,
    }
}

pub proof fn lemma_parse_enc_input(s: Seq<u8>, i: int, c: CellInput)
    requires
        0 <= i,
        i + 36 <= s.len(),
        s.subrange(i, i + 36) == spec_enc_input(c),
    ensures
        spec_parse_input(s, i) == Some((c, i + 36)),
{
    lemma_parse_enc_outpoint(s, i, c.previous_output);
}

pub fn enc_input(c: &CellInput, out: &mut Vec<u8>)
    ensures
        final(out)@ == old(out)@ + spec_enc_input(*c),
{
    enc_outpoint(&c.previous_output, out);
}

pub fn parse_input(s: &Vec<u8>, i: usize) -> (r: Option<(CellInput, usize)>)
    ensures
        match r {
            Some((c, j)) => spec_parse_input(s@, i as int) == Some((c, j as int)),
            None => spec_parse_input(s@, i as int) is None,
        },
{
    match parse_outpoint(s, i) {
        None => None,
        Some((o, j)) => Some((CellInput { previous_output: o }, j)),
    }
}

pub open spec fn spec_enc_header(h: Header) -> Seq<u8> {
    spec_enc_u32(h.version) + spec_enc_h256(h.parent_hash) + spec_enc_u64(h.timestamp)
        + spec_enc_u64(h.number) + spec_enc_u64(h.difficulty)
}

pub open spec fn spec_parse_header(s: Seq<u8>, i: int) -> Option<(Header, int)> {
    match spec_parse_u32(s, i) {
        Some((version, i1)) => match spec_parse_h256(s, i1) {
            Some((parent_hash, i2)) => match spec_parse_u64(s, i2) {
                Some((timestamp, i3)) => match spec_parse_u64(s, i3) {
                    Some((number, i4)) => match spec_parse_u64(s, i4) {
                        Some((difficulty, i5)) => Some(
                            (Header { version, parent_hash, timestamp, number, difficulty }, i5),
                        ),
                        None => None,
                    },
                    None => None,
                },
                None => None,
            },
            None => None,
        },
        None => None,
    }
}

pub proof fn lemma_parse_enc_header(s: Seq<u8>, i: int, h: Header)
    requires
        0 <= i,
        i + 60 <= s.len(),
        s.subrange(i, i + 60) == spec_enc_header(h),
    ensures
        spec_parse_header(s, i) == Some((h, i + 60)),
{
    let enc = spec_enc_header(h);
    assert(enc.subrange(0, 4) =~= spec_enc_u32(h.version));
    assert(enc.subrange(4, 36) =~= spec_enc_h256(h.parent_hash));
    assert(enc.subrange(36, 44) =~= spec_enc_u64(h.timestamp));
    assert(enc.subrange(44, 52) =~= spec_enc_u64(h.number));
    assert(enc.subrange(52, 60) =~= spec_enc_u64(h.difficulty));
    lemma_chunk(s, i, enc, 0, spec_enc_u32(h.version));
    lemma_chunk(s, i, enc, 4, spec_enc_h256(h.parent_hash));
    lemma_chunk(s, i, enc, 36, spec_enc_u64(h.timestamp));
    lemma_chunk(s, i, enc, 44, spec_enc_u64(h.number));
    lemma_chunk(s, i, enc, 52, spec_enc_u64(h.difficulty));
    lemma_parse_enc_u32(s, i, h.version);
    lemma_parse_enc_h256(s, i + 4, h.parent_hash);
    lemma_parse_enc_u64(s, i + 36, h.timestamp);
    lemma_parse_enc_u64(s, i + 44, h.number);
    lemma_parse_enc_u64(s, i + 52, h.difficulty);
}

pub fn enc_header(h: &Header, out: &mut Vec<u8>)
    ensures
        final(out)@ == old(out)@ + spec_enc_header(*h),
{
    let ghost base = out@;
    enc_u32(h.version, out);
    enc_h256(&h.parent_hash, out);
    enc_u64(h.timestamp, out);
    enc_u64(h.number, out);
    enc_u64(h.difficulty, out);
    proof {
        assert(out@ =~= base + spec_enc_header(*h));
    }
}

pub fn parse_header(s: &Vec<u8>, i: usize) -> (r: Option<(Header, usize)>)
    ensures
        match r {
            Some((h, j)) => spec_parse_header(s@, i as int) == Some((h, j as int)),
            None => spec_parse_header(s@, i as int) is None,
        },
{
    match parse_u32(s, i) {
        None => None,
        Some((version, i1)) => match parse_h256(s, i1) {
            None => None,
            Some((parent_hash, i2)) => match parse_u64(s, i2) {
                None => None,
                Some((timestamp, i3)) => match parse_u64(s, i3) {
                    None => None,
                    Some((number, i4)) => match parse_u64(s, i4) {
                        None => None,
                        Some((difficulty, i5)) => Some(
                            (Header { version, parent_hash, timestamp, number, difficulty }, i5),
                        ),
                    },
                },
            },
        },
    }
}

pub open spec fn spec_enc_uncle(u: UncleBlock) -> Seq<u8> {
    spec_enc_header(u.header)
}

pub open spec fn spec_parse_uncle(s: Seq<u8>, i: int) -> Option<(UncleBlock, int)> {
    match spec_parse_header(s, i) {
        Some((h, j)) => Some((UncleBlock { header: h }, j)),
        None => None,
    }
}

pub proof fn lemma_parse_enc_uncle(s: Seq<u8>, i: int, u: UncleBlock)
    requires
        0 <= i,
        i + 60 <= s.len(),
        s.subrange(i, i + 60) == spec_enc_uncle(u),
    ensures
        spec_parse_uncle(s, i) == Some((u, i + 60)),
{
    lemma_parse_enc_header(s, i, u.header);
}

pub fn enc_uncle(u: &UncleBlock, out: &mut Vec<u8>)
    ensures
        final(out)@ == old(out)@ + spec_enc_uncle(*u),
{
    enc_header(&u.header, out);
}

pub fn parse_uncle(s: &Vec<u8>, i: usize) -> (r: Option<(UncleBlock, usize)>)
    ensures
        match r {
            Some((u, j)) => spec_parse_uncle(s@, i as int) == Some((u, j as int)),
            None => spec_parse_uncle(s@, i as int) is None,
        },
{
    match parse_header(s, i) {
        None => None,
        Some((h, j)) => Some((UncleBlock { header: h }, j)),
    }
}

pub open spec fn spec_enc_address(a: Address) -> Seq<u8> {
    spec_enc_u64(a.offset) + spec_enc_u64(a.length)
}

pub open spec fn spec_parse_address(s: Seq<u8>, i: int) -> Option<(Address, int)> {
    match spec_parse_u64(s, i) {
        Some((offset, i1)) => match spec_parse_u64(s, i1) {
            Some((length, i2)) => Some((Address { offset, length }, i2)),
            None => None,
        },
        None => None,
    }
}

pub proof fn lemma_parse_enc_address(s: Seq<u8>, i: int, a: Address)
    requires
        0 <= i,
        i + 16 <= s.len(),
        s.subrange(i, i + 16) == spec_enc_address(a),
    ensures
        spec_parse_address(s, i) == Some((a, i + 16)),
{
    let enc = spec_enc_address(a);
    assert(enc.subrange(0, 8) =~= spec_enc_u64(a.offset));
    assert(enc.subrange(8, 16) =~= spec_enc_u64(a.length));
    lemma_chunk(s, i, enc, 0, spec_enc_u64(a.offset));
    lemma_chunk(s, i, enc, 8, spec_enc_u64(a.length));
    lemma_parse_enc_u64(s, i, a.offset);
    lemma_parse_enc_u64(s, i + 8, a.length);
}

pub fn enc_address(a: &Address, out: &mut Vec<u8>)
    ensures
        final(out)@ == old(out)@ + spec_enc_address(*a),
{
    let ghost base = out@;
    enc_u64(a.offset, out);
    enc_u64(a.length, out);
    proof {
        assert(out@ =~= base + spec_enc_address(*a));
    }
}

pub fn parse_address(s: &Vec<u8>, i: usize) -> (r: Option<(Address, usize)>)
    ensures
        match r {
            Some((a, j)) => spec_parse_address(s@, i as int) == Some((a, j as int)),
            None => spec_parse_address(s@, i as int) is None,
        },
{
    match parse_u64(s, i) {
        None => None,
        Some((offset, i1)) => match parse_u64(s, i1) {
            None => None,
            Some((length, i2)) => Some((Address { offset, length }, i2)),
        },
    }
}

pub open spec fn spec_enc_tx_addr(a: TransactionAddress) -> Seq<u8> {
    spec_enc_h256(a.block_hash) + spec_enc_u64(a.offset) + spec_enc_u64(a.length)
}

pub open spec fn spec_parse_tx_addr(s: Seq<u8>, i: int) -> Option<(TransactionAddress, int)> {
    match spec_parse_h256(s, i) {
        Some((block_hash, i1)) => match spec_parse_u64(s, i1) {
            Some((offset, i2)) => match spec_parse_u64(s, i2) {
                Some((length, i3)) => Some((TransactionAddress { block_hash, offset, length }, i3)),
                None => None,
            },
            None => None,
        },
        None => None,
    }
}

pub proof fn lemma_parse_enc_tx_addr(s: Seq<u8>, i: int, a: TransactionAddress)
    requires
        0 <= i,
        i + 48 <= s.len(),
        s.subrange(i, i + 48) == spec_enc_tx_addr(a),
    ensures
        spec_parse_tx_addr(s, i) == Some((a, i + 48)),
{
    let enc = spec_enc_tx_addr(a);
    assert(enc.subrange(0, 32) =~= spec_enc_h256(a.block_hash));
    assert(enc.subrange(32, 40) =~= spec_enc_u64(a.offset));
    assert(enc.subrange(40, 48) =~= spec_enc_u64(a.length));
    lemma_chunk(s, i, enc, 0, spec_enc_h256(a.block_hash));
    lemma_chunk(s, i, enc, 32, spec_enc_u64(a.offset));
    lemma_chunk(s, i, enc, 40, spec_enc_u64(a.length));
    lemma_parse_enc_h256(s, i, a.block_hash);
    lemma_parse_enc_u64(s, i + 32, a.offset);
    lemma_parse_enc_u64(s, i + 40, a.length);
}

pub fn enc_tx_addr(a: &TransactionAddress, out: &mut Vec<u8>)
    ensures
        final(out)@ == old(out)@ + spec_enc_tx_addr(*a),
{
    let ghost base = out@;
    enc_h256(&a.block_hash, out);
    enc_u64(a.offset, out);
    enc_u64(a.length, out);
    proof {
        assert(out@ =~= base + spec_enc_tx_addr(*a));
    }
}

pub fn parse_tx_addr(s: &Vec<u8>, i: usize) -> (r: Option<(TransactionAddress, usize)>)
    ensures
        match r {
            Some((a, j)) => spec_parse_tx_addr(s@, i as int) == Some((a, j as int)),
            None => spec_parse_tx_addr(s@, i as int) is None,
        },
{
    match parse_h256(s, i) {
        None => None,
        Some((block_hash, i1)) => match parse_u64(s, i1) {
            None => None,
            Some((offset, i2)) => match parse_u64(s, i2) {
                None => None,
                Some((length, i3)) => Some((TransactionAddress { block_hash, offset, length }, i3)),
            },
        },
    }
}

pub open spec fn spec_enc_ext(e: BlockExt) -> Seq<u8> {
    spec_enc_u64(e.received_at) + spec_enc_u64(e.total_difficulty) + spec_enc_u64(
        e.total_uncles_count,
    ) + spec_enc_opt_bool(e.txs_verified)
}

pub open spec fn spec_parse_ext(s: Seq<u8>, i: int) -> Option<(BlockExt, int)> {
    match spec_parse_u64(s, i) {
        Some((received_at, i1)) => match spec_parse_u64(s, i1) {
            Some((total_difficulty, i2)) => match spec_parse_u64(s, i2) {
                Some((total_uncles_count, i3)) => match spec_parse_opt_bool(s, i3) {
                    Some((txs_verified, i4)) => Some(
                        (
                            BlockExt {
                                received_at,
                                total_difficulty,
                                total_uncles_count,
                                txs_verified,
                            },
                            i4,
                        ),
                    ),
                    None => None,
                },
                None => None,
            },
            None => None,
        },
        None => None,
    }
}

pub proof fn lemma_parse_enc_ext(s: Seq<u8>, i: int, e: BlockExt)
    requires
        0 <= i,
        i + 25 <= s.len(),
        s.subrange(i, i + 25) == spec_enc_ext(e),
    ensures
        spec_parse_ext(s, i) == Some((e, i + 25)),
{
    let enc = spec_enc_ext(e);
    assert(enc.subrange(0, 8) =~= spec_enc_u64(e.received_at));
    assert(enc.subrange(8, 16) =~= spec_enc_u64(e.total_difficulty));
    assert(enc.subrange(16, 24) =~= spec_enc_u64(e.total_uncles_count));
    assert(enc.subrange(24, 25) =~= spec_enc_opt_bool(e.txs_verified));
    lemma_chunk(s, i, enc, 0, spec_enc_u64(e.received_at));
    lemma_chunk(s, i, enc, 8, spec_enc_u64(e.total_difficulty));
    lemma_chunk(s, i, enc, 16, spec_enc_u64(e.total_uncles_count));
    lemma_chunk(s, i, enc, 24, spec_enc_opt_bool(e.txs_verified));
    lemma_parse_enc_u64(s, i, e.received_at);
    lemma_parse_enc_u64(s, i + 8, e.total_difficulty);
    lemma_parse_enc_u64(s, i + 16, e.total_uncles_count);
    lemma_parse_enc_opt_bool(s, i + 24, e.txs_verified);
}

pub fn enc_ext(e: &BlockExt, out: &mut Vec<u8>)
    ensures
        final(out)@ == old(out)@ + spec_enc_ext(*e),
{
    let ghost base = out@;
    enc_u64(e.received_at, out);
    enc_u64(e.total_difficulty, out);
    enc_u64(e.total_uncles_count, out);
    enc_opt_bool(&e.txs_verified, out);
    proof {
        assert(out@ =~= base + spec_enc_ext(*e));
    }
}

pub fn parse_ext(s: &Vec<u8>, i: usize) -> (r: Option<(BlockExt, usize)>)
    ensures
        match r {
            Some((e, j)) => spec_parse_ext(s@, i as int) == Some((e, j as int)),
            None => spec_parse_ext(s@, i as int) is None,
        },
{
    match parse_u64(s, i) {
        None => None,
        Some((received_at, i1)) => match parse_u64(s, i1) {
            None => None,
            Some((total_difficulty, i2)) => match parse_u64(s, i2) {
                None => None,
                Some((total_uncles_count, i3)) => match parse_opt_bool(s, i3) {
                    None => None,
                    Some((txs_verified, i4)) => Some(
                        (
                            BlockExt {
                                received_at,
                                total_difficulty,
                                total_uncles_count,
                                txs_verified,
                            },
                            i4,
                        ),
                    ),
                },
            },
        },
    }
}

// ---------------------------------------------------------------------
// scripts and outputs
// ---------------------------------------------------------------------

/// A script value small enough to carry a byte-length prefix.
pub open spec fn script_wf(s: ScriptView) -> bool {
    s.binary.len() <= usize::MAX
}

pub open spec fn spec_enc_script(s: ScriptView) -> Seq<u8> {
    spec_enc_u32(s.version) + spec_enc_bytes(s.binary)
}

pub open spec fn spec_parse_script(s: Seq<u8>, i: int) -> Option<(ScriptView, int)> {
    match spec_parse_u32(s, i) {
        Some((version, i1)) => match spec_parse_bytes(s, i1) {
            Some((binary, i2)) => Some((ScriptView { version, binary }, i2)),
            None => None,
        },
        None => None,
    }
}

pub proof fn lemma_parse_enc_script(s: Seq<u8>, i: int, v: ScriptView)
    requires
        0 <= i,
        script_wf(v),
        i + spec_enc_script(v).len() <= s.len(),
        s.subrange(i, i + spec_enc_script(v).len()) == spec_enc_script(v),
    ensures
        spec_parse_script(s, i) == Some((v, i + spec_enc_script(v).len())),
{
    let enc = spec_enc_script(v);
    assert(enc.subrange(0, 4) =~= spec_enc_u32(v.version));
    assert(enc.subrange(4, enc.len() as int) =~= spec_enc_bytes(v.binary));
    lemma_chunk(s, i, enc, 0, spec_enc_u32(v.version));
    lemma_chunk(s, i, enc, 4, spec_enc_bytes(v.binary));
    lemma_parse_enc_u32(s, i, v.version);
    lemma_parse_enc_bytes(s, i + 4, v.binary);
}

pub fn enc_script(v: &Script, out: &mut Vec<u8>)
    ensures
        final(out)@ == old(out)@ + spec_enc_script(v@),
{
    let ghost base = out@;
    enc_u32(v.version, out);
    enc_bytes(&v.binary, out);
    proof {
        assert(out@ =~= base + spec_enc_script(v@));
    }
}

pub fn parse_script(s: &Vec<u8>, i: usize) -> (r: Option<(Script, usize)>)
    ensures
        match r {
            Some((v, j)) => spec_parse_script(s@, i as int) == Some((v@, j as int)),
            None => spec_parse_script(s@, i as int) is None,
        },
{
    match parse_u32(s, i) {
        None => None,
        Some((version, i1)) => match parse_bytes(s, i1) {
            None => None,
            Some((binary, i2)) => Some((Script { version, binary }, i2)),
        },
    }
}

pub open spec fn spec_enc_opt_script(v: Option<ScriptView>) -> Seq<u8> {
    match v {
        None => seq![0u8],
        Some(sc) => seq![1u8] + spec_enc_script(sc),
    }
}

pub open spec fn spec_parse_opt_script(s: Seq<u8>, i: int) -> Option<(Option<ScriptView>, int)> {
    if 0 <= i && i + 1 <= s.len() {
        if s[i] == 0u8 {
            Some((None, i + 1))
        } else if s[i] == 1u8 {
            match spec_parse_script(s, i + 1) {
                Some((sc, j)) => Some((Some(sc), j)),
                None => None,
            }
        } else {
            None
        }
    } else {
        None
    }
}

pub proof fn lemma_parse_enc_opt_script(s: Seq<u8>, i: int, v: Option<ScriptView>)
    requires
        0 <= i,
        (v matches Some(sc) ==> script_wf(sc)),
        i + spec_enc_opt_script(v).len() <= s.len(),
        s.subrange(i, i + spec_enc_opt_script(v).len()) == spec_enc_opt_script(v),
    ensures
        spec_parse_opt_script(s, i) == Some((v, i + spec_enc_opt_script(v).len())),
{
    let enc = spec_enc_opt_script(v);
    assert(s[i] == enc[0]);
    match v {
        None => {},
        Some(sc) => {
            assert(enc.subrange(1, enc.len() as int) =~= spec_enc_script(sc));
            lemma_chunk(s, i, enc, 1, spec_enc_script(sc));
            lemma_parse_enc_script(s, i + 1, sc);
        },
    }
}

pub fn enc_opt_script(v: &Option<Script>, out: &mut Vec<u8>)
    ensures
        final(out)@ == old(out)@ + spec_enc_opt_script(
            match v {
                Some(sc) => Some(sc@),
                None => None,
            },
        ),
{
    let ghost base = out@;
    match v {
        None => {
            out.push(0u8);
        },
        Some(sc) => {
            out.push(1u8);
            enc_script(sc, out);
        },
    }
    proof {
        assert(out@ =~= base + spec_enc_opt_script(
            match v {
                Some(sc) => Some(sc@),
                None => None,
            },
        ));
    }
}

pub fn parse_opt_script(s: &Vec<u8>, i: usize) -> (r: Option<(Option<Script>, usize)>)
    ensures
        match r {
            Some((v, j)) => spec_parse_opt_script(s@, i as int) == Some(
                (
                    match v {
                        Some(sc) => Some(sc@),
                        None => None,
                    },
                    j as int,
                ),
            ),
            None => spec_parse_opt_script(s@, i as int) is None,
        },
{
    if i < s.len() {
        if s[i] == 0u8 {
            Some((None, i + 1))
        } else if s[i] == 1u8 {
            match parse_script(s, i + 1) {
                None => None,
                Some((sc, j)) => Some((Some(sc), j)),
            }
        } else {
            None
        }
    } else {
        None
    }
}

/// An output value small enough for every byte-length prefix it carries.
pub open spec fn output_wf(o: CellOutputView) -> bool {
    &&& o.data.len() <= usize::MAX
    &&& script_wf(o.lock)
    &&& (o.type_ matches Some(t) ==> script_wf(t))
}

pub open spec fn spec_enc_output(o: CellOutputView) -> Seq<u8> {
    spec_enc_u64(o.capacity.0) + spec_enc_bytes(o.data) + spec_enc_script(o.lock)
        + spec_enc_opt_script(o.type_)
}

pub open spec fn spec_parse_output(s: Seq<u8>, i: int) -> Option<(CellOutputView, int)> {
    match spec_parse_u64(s, i) {
        Some((cap, i1)) => match spec_parse_bytes(s, i1) {
            Some((data, i2)) => match spec_parse_script(s, i2) {
                Some((lock, i3)) => match spec_parse_opt_script(s, i3) {
                    Some((type_, i4)) => Some(
                        (CellOutputView { capacity: Capacity(cap), data, lock, type_ }, i4),
                    ),
                    None => None,
                },
                None => None,
            },
            None => None,
        },
        None => None,
    }
}

pub proof fn lemma_parse_enc_output(s: Seq<u8>, i: int, o: CellOutputView)
    requires
        0 <= i,
        output_wf(o),
        i + spec_enc_output(o).len() <= s.len(),
        s.subrange(i, i + spec_enc_output(o).len()) == spec_enc_output(o),
    ensures
        spec_parse_output(s, i) == Some((o, i + spec_enc_output(o).len())),
{
    let enc = spec_enc_output(o);
    let n1 = 8int;
    let n2 = n1 + spec_enc_bytes(o.data).len();
    let n3 = n2 + spec_enc_script(o.lock).len();
    let n4 = n3 + spec_enc_opt_script(o.type_).len();
    assert(enc.subrange(0, n1) =~= spec_enc_u64(o.capacity.0));
    assert(enc.subrange(n1, n2) =~= spec_enc_bytes(o.data));
    assert(enc.subrange(n2, n3) =~= spec_enc_script(o.lock));
    assert(enc.subrange(n3, n4) =~= spec_enc_opt_script(o.type_));
    lemma_chunk(s, i, enc, 0, spec_enc_u64(o.capacity.0));
    lemma_chunk(s, i, enc, n1, spec_enc_bytes(o.data));
    lemma_chunk(s, i, enc, n2, spec_enc_script(o.lock));
    lemma_chunk(s, i, enc, n3, spec_enc_opt_script(o.type_));
    lemma_parse_enc_u64(s, i, o.capacity.0);
    lemma_parse_enc_bytes(s, i + n1, o.data);
    lemma_parse_enc_script(s, i + n2, o.lock);
    lemma_parse_enc_opt_script(s, i + n3, o.type_);
}

pub fn enc_output(o: &CellOutput, out: &mut Vec<u8>)
    ensures
        final(out)@ == old(out)@ + spec_enc_output(o@),
{
    let ghost base = out@;
    enc_u64(o.capacity.0, out);
    enc_bytes(&o.data, out);
    enc_script(&o.lock, out);
    enc_opt_script(&o.type_, out);
    proof {
        assert(out@ =~= base + spec_enc_output(o@));
    }
}

pub fn parse_output(s: &Vec<u8>, i: usize) -> (r: Option<(CellOutput, usize)>)
    ensures
        match r {
            Some((o, j)) => spec_parse_output(s@, i as int) == Some((o@, j as int)),
            None => spec_parse_output(s@, i as int) is None,
        },
{
    match parse_u64(s, i) {
        None => None,
        Some((cap, i1)) => match parse_bytes(s, i1) {
            None => None,
            Some((data, i2)) => match parse_script(s, i2) {
                None => None,
                Some((lock, i3)) => match parse_opt_script(s, i3) {
                    None => None,
                    Some((type_, i4)) => Some(
                        (CellOutput { capacity: Capacity(cap), data, lock, type_ }, i4),
                    ),
                },
            },
        },
    }
}

// ---------------------------------------------------------------------
// counted vectors
// ---------------------------------------------------------------------

pub open spec fn spec_enc_psid_elems(v: Seq<ProposalShortId>) -> Seq<u8>
    decreases v.len(),
{
    if v.len() == 0 {
        Seq::empty()
    } else {
        spec_enc_psid_elems(v.drop_last()) + spec_enc_psid(v.last())
    }
}

pub open spec fn spec_enc_psid_vec(v: Seq<ProposalShortId>) -> Seq<u8> {
    spec_enc_u64(v.len() as u64) + spec_enc_psid_elems(v)
}

pub open spec fn spec_parse_psid_elems(s: Seq<u8>, i: int, n: nat) -> Option<
    (Seq<ProposalShortId>, int),
>
    decreases n,
{
    if n == 0 {
        if 0 <= i <= s.len() {
            Some((Seq::empty(), i))
        } else {
            None
        }
    } else {
        match spec_parse_psid_elems(s, i, (n - 1) as nat) {
            Some((v, j)) => match spec_parse_psid(s, j) {
                Some((x, k)) => Some((v.push(x), k)),
                None => None,
            },
            None => None,
        }
    }
}

pub open spec fn spec_parse_psid_vec(s: Seq<u8>, i: int) -> Option<(Seq<ProposalShortId>, int)> {
    match spec_parse_u64(s, i) {
        Some((n, j)) => if n <= usize::MAX as u64 {
            spec_parse_psid_elems(s, j, n as nat)
        } else {
            None
        },
        None => None,
    }
}

pub proof fn lemma_parse_enc_psid_elems(s: Seq<u8>, i: int, v: Seq<ProposalShortId>)
    requires
        0 <= i,
        i + spec_enc_psid_elems(v).len() <= s.len(),
        s.subrange(i, i + spec_enc_psid_elems(v).len()) == spec_enc_psid_elems(v),
    ensures
        spec_parse_psid_elems(s, i, v.len()) == Some((v, i + spec_enc_psid_elems(v).len())),
    decreases v.len(),
{
    if v.len() > 0 {
        let dl = v.drop_last();
        let enc = spec_enc_psid_elems(v);
        let dlen = spec_enc_psid_elems(dl).len() as int;
        assert(enc.subrange(0, dlen) =~= spec_enc_psid_elems(dl));
        lemma_chunk(s, i, enc, 0, spec_enc_psid_elems(dl));
        lemma_parse_enc_psid_elems(s, i, dl);
        assert(enc.subrange(dlen, enc.len() as int) =~= spec_enc_psid(v.last()));
        lemma_chunk(s, i, enc, dlen, spec_enc_psid(v.last()));
        lemma_parse_enc_psid(s, i + dlen, v.last());
        assert(dl.push(v.last()) =~= v);
    }
}

pub proof fn lemma_parse_psid_elems_fail(
    s: Seq<u8>,
    i: int,
    k: nat,
    n: nat,
    v: Seq<ProposalShortId>,
    pos: int,
)
    requires
        spec_parse_psid_elems(s, i, k) == Some((v, pos)),
        spec_parse_psid(s, pos) is None,
        k < n,
    ensures
        spec_parse_psid_elems(s, i, n) is None,
    decreases n,
{
    if n > k + 1 {
        lemma_parse_psid_elems_fail(s, i, k, (n - 1) as nat, v, pos);
    }
}

pub proof fn lemma_parse_enc_psid_vec(s: Seq<u8>, i: int, v: Seq<ProposalShortId>)
    requires
        0 <= i,
        v.len() <= usize::MAX,
        i + spec_enc_psid_vec(v).len() <= s.len(),
        s.subrange(i, i + spec_enc_psid_vec(v).len()) == spec_enc_psid_vec(v),
    ensures
        spec_parse_psid_vec(s, i) == Some((v, i + spec_enc_psid_vec(v).len())),
{
    let enc = spec_enc_psid_vec(v);
    assert(enc.subrange(0, 8) =~= spec_enc_u64(v.len() as u64));
    lemma_chunk(s, i, enc, 0, spec_enc_u64(v.len() as u64));
    lemma_parse_enc_u64(s, i, v.len() as u64);
    assert(enc.subrange(8, enc.len() as int) =~= spec_enc_psid_elems(v));
    lemma_chunk(s, i, enc, 8, spec_enc_psid_elems(v));
    lemma_parse_enc_psid_elems(s, i + 8, v);
}

pub fn enc_psid_vec(v: &Vec<ProposalShortId>, out: &mut Vec<u8>)
    ensures
        final(out)@ == old(out)@ + spec_enc_psid_vec(v@),
{
    let ghost base = out@;
    enc_u64(v.len() as u64, out);
    let mut k: usize = 0;
    while k < v.len()
        invariant
            k <= v.len(),
            out@ == base + spec_enc_u64(v@.len() as u64) + spec_enc_psid_elems(
                v@.take(k as int),
            ),
        decreases v.len() - k,
    {
        enc_psid(&v[k], out);
        proof {
            assert(v@.take(k + 1 as int).drop_last() =~= v@.take(k as int));
            assert(out@ =~= base + spec_enc_u64(v@.len() as u64) + spec_enc_psid_elems(
                v@.take(k + 1 as int),
            ));
        }
        k = k + 1;
    }
    proof {
        assert(v@.take(v@.len() as int) =~= v@);
        assert(out@ =~= base + spec_enc_psid_vec(v@));
    }
}

pub fn parse_psid_vec(s: &Vec<u8>, i: usize) -> (r: Option<(Vec<ProposalShortId>, usize)>)
    ensures
        match r {
            Some((v, j)) => spec_parse_psid_vec(s@, i as int) == Some((v@, j as int)),
            None => spec_parse_psid_vec(s@, i as int) is None,
        },
{
    match parse_u64(s, i) {
        None => None,
        Some((n64, j0)) => {
            if n64 > usize::MAX as u64 {
                return None;
            }
            let n = n64 as usize;
            let mut v: Vec<ProposalShortId> = Vec::new();
            let mut pos: usize = j0;
            let mut k: usize = 0;
            while k < n
                invariant
                    k <= n,
                    n == n64,
                    spec_parse_u64(s@, i as int) == Some((n64, j0 as int)),
                    spec_parse_psid_elems(s@, j0 as int, k as nat) == Some((v@, pos as int)),
                decreases n - k,
            {
                match parse_psid(s, pos) {
                    None => {
                        proof {
                            lemma_parse_psid_elems_fail(
                                s@,
                                j0 as int,
                                k as nat,
                                n as nat,
                                v@,
                                pos as int,
                            );
                        }
                        return None;
                    },
                    Some((x, np)) => {
                        v.push(x);
                        pos = np;
                        k = k + 1;
                        proof {
                            assert(spec_parse_psid_elems(s@, j0 as int, k as nat) == Some(
                                (v@, pos as int),
                            ));
                        }
                    },
                }
            }
            Some((v, pos))
        },
    }
}

pub open spec fn spec_enc_outpoint_elems(v: Seq<OutPoint>) -> Seq<u8>
    decreases v.len(),
{
    if v.len() == 0 {
        Seq::empty()
    } else {
        spec_enc_outpoint_elems(v.drop_last()) + spec_enc_outpoint(v.last())
    }
}

pub open spec fn spec_enc_outpoint_vec(v: Seq<OutPoint>) -> Seq<u8> {
    spec_enc_u64(v.len() as u64) + spec_enc_outpoint_elems(v)
}

pub open spec fn spec_parse_outpoint_elems(s: Seq<u8>, i: int, n: nat) -> Option<
    (Seq<OutPoint>, int),
>
    decreases n,
{
    if n == 0 {
        if 0 <= i <= s.len() {
            Some((Seq::empty(), i))
        } else {
            None
        }
    } else {
        match spec_parse_outpoint_elems(s, i, (n - 1) as nat) {
            Some((v, j)) => match spec_parse_outpoint(s, j) {
                Some((x, k)) => Some((v.push(x), k)),
                None => None,
            },
            None => None,
        }
    }
}

pub open spec fn spec_parse_outpoint_vec(s: Seq<u8>, i: int) -> Option<(Seq<OutPoint>, int)> {
    match spec_parse_u64(s, i) {
        Some((n, j)) => if n <= usize::MAX as u64 {
            spec_parse_outpoint_elems(s, j, n as nat)
        } else {
            None
        },
        None => None,
    }
}

pub proof fn lemma_parse_enc_outpoint_elems(s: Seq<u8>, i: int, v: Seq<OutPoint>)
    requires
        0 <= i,
        i + spec_enc_outpoint_elems(v).len() <= s.len(),
        s.subrange(i, i + spec_enc_outpoint_elems(v).len()) == spec_enc_outpoint_elems(v),
    ensures
        spec_parse_outpoint_elems(s, i, v.len()) == Some(
            (v, i + spec_enc_outpoint_elems(v).len()),
        ),
    decreases v.len(),
{
    if v.len() > 0 {
        let dl = v.drop_last();
        let enc = spec_enc_outpoint_elems(v);
        let dlen = spec_enc_outpoint_elems(dl).len() as int;
        assert(enc.subrange(0, dlen) =~= spec_enc_outpoint_elems(dl));
        lemma_chunk(s, i, enc, 0, spec_enc_outpoint_elems(dl));
        lemma_parse_enc_outpoint_elems(s, i, dl);
        assert(enc.subrange(dlen, enc.len() as int) =~= spec_enc_outpoint(v.last()));
        lemma_chunk(s, i, enc, dlen, spec_enc_outpoint(v.last()));
        lemma_parse_enc_outpoint(s, i + dlen, v.last());
        assert(dl.push(v.last()) =~= v);
    }
}

pub proof fn lemma_parse_outpoint_elems_fail(
    s: Seq<u8>,
    i: int,
    k: nat,
    n: nat,
    v: Seq<OutPoint>,
    pos: int,
)
    requires
        spec_parse_outpoint_elems(s, i, k) == Some((v, pos)),
        spec_parse_outpoint(s, pos) is None,
        k < n,
    ensures
        spec_parse_outpoint_elems(s, i, n) is None,
    decreases n,
{
    if n > k + 1 {
        lemma_parse_outpoint_elems_fail(s, i, k, (n - 1) as nat, v, pos);
    }
}

pub proof fn lemma_parse_enc_outpoint_vec(s: Seq<u8>, i: int, v: Seq<OutPoint>)
    requires
        0 <= i,
        v.len() <= usize::MAX,
        i + spec_enc_outpoint_vec(v).len() <= s.len(),
        s.subrange(i, i + spec_enc_outpoint_vec(v).len()) == spec_enc_outpoint_vec(v),
    ensures
        spec_parse_outpoint_vec(s, i) == Some((v, i + spec_enc_outpoint_vec(v).len())),
{
    let enc = spec_enc_outpoint_vec(v);
    assert(enc.subrange(0, 8) =~= spec_enc_u64(v.len() as u64));
    lemma_chunk(s, i, enc, 0, spec_enc_u64(v.len() as u64));
    lemma_parse_enc_u64(s, i, v.len() as u64);
    assert(enc.subrange(8, enc.len() as int) =~= spec_enc_outpoint_elems(v));
    lemma_chunk(s, i, enc, 8, spec_enc_outpoint_elems(v));
    lemma_parse_enc_outpoint_elems(s, i + 8, v);
}

pub fn enc_outpoint_vec(v: &Vec<OutPoint>, out: &mut Vec<u8>)
    ensures
        final(out)@ == old(out)@ + spec_enc_outpoint_vec(v@),
{
    let ghost base = out@;
    enc_u64(v.len() as u64, out);
    let mut k: usize = 0;
    while k < v.len()
        invariant
            k <= v.len(),
            out@ == base + spec_enc_u64(v@.len() as u64) + spec_enc_outpoint_elems(
                v@.take(k as int),
            ),
        decreases v.len() - k,
    {
        enc_outpoint(&v[k], out);
        proof {
            assert(v@.take(k + 1 as int).drop_last() =~= v@.take(k as int));
            assert(out@ =~= base + spec_enc_u64(v@.len() as u64) + spec_enc_outpoint_elems(
                v@.take(k + 1 as int),
            ));
        }
        k = k + 1;
    }
    proof {
        assert(v@.take(v@.len() as int) =~= v@);
        assert(out@ =~= base + spec_enc_outpoint_vec(v@));
    }
}

pub fn parse_outpoint_vec(s: &Vec<u8>, i: usize) -> (r: Option<(Vec<OutPoint>, usize)>)
    ensures
        match r {
            Some((v, j)) => spec_parse_outpoint_vec(s@, i as int) == Some((v@, j as int)),
            None => spec_parse_outpoint_vec(s@, i as int) is None,
        },
{
    match parse_u64(s, i) {
        None => None,
        Some((n64, j0)) => {
            if n64 > usize::MAX as u64 {
                return None;
            }
            let n = n64 as usize;
            let mut v: Vec<OutPoint> = Vec::new();
            let mut pos: usize = j0;
            let mut k: usize = 0;
            while k < n
                invariant
                    k <= n,
                    n == n64,
                    spec_parse_u64(s@, i as int) == Some((n64, j0 as int)),
                    spec_parse_outpoint_elems(s@, j0 as int, k as nat) == Some((v@, pos as int)),
                decreases n - k,
            {
                match parse_outpoint(s, pos) {
                    None => {
                        proof {
                            lemma_parse_outpoint_elems_fail(
                                s@,
                                j0 as int,
                                k as nat,
                                n as nat,
                                v@,
                                pos as int,
                            );
                        }
                        return None;
                    },
                    Some((x, np)) => {
                        v.push(x);
                        pos = np;
                        k = k + 1;
                        proof {
                            assert(spec_parse_outpoint_elems(s@, j0 as int, k as nat) == Some(
                                (v@, pos as int),
                            ));
                        }
                    },
                }
            }
            Some((v, pos))
        },
    }
}

pub open spec fn spec_enc_input_elems(v: Seq<CellInput>) -> Seq<u8>
    decreases v.len(),
{
    if v.len() == 0 {
        Seq::empty()
    } else {
        spec_enc_input_elems(v.drop_last()) + spec_enc_input(v.last())
    }
}

pub open spec fn spec_enc_input_vec(v: Seq<CellInput>) -> Seq<u8> {
    spec_enc_u64(v.len() as u64) + spec_enc_input_elems(v)
}

pub open spec fn spec_parse_input_elems(s: Seq<u8>, i: int, n: nat) -> Option<(Seq<CellInput>, int)>
    decreases n,
{
    if n == 0 {
        if 0 <= i <= s.len() {
            Some((Seq::empty(), i))
        } else {
            None
        }
    } else {
        match spec_parse_input_elems(s, i, (n - 1) as nat) {
            Some((v, j)) => match spec_parse_input(s, j) {
                Some((x, k)) => Some((v.push(x), k)),
                None => None,
            },
            None => None,
        }
    }
}

pub open spec fn spec_parse_input_vec(s: Seq<u8>, i: int) -> Option<(Seq<CellInput>, int)> {
    match spec_parse_u64(s, i) {
        Some((n, j)) => if n <= usize::MAX as u64 {
            spec_parse_input_elems(s, j, n as nat)
        } else {
            None
        },
        None => None,
    }
}

pub proof fn lemma_parse_enc_input_elems(s: Seq<u8>, i: int, v: Seq<CellInput>)
    requires
        0 <= i,
        i + spec_enc_input_elems(v).len() <= s.len(),
        s.subrange(i, i + spec_enc_input_elems(v).len()) == spec_enc_input_elems(v),
    ensures
        spec_parse_input_elems(s, i, v.len()) == Some((v, i + spec_enc_input_elems(v).len())),
    decreases v.len(),
{
    if v.len() > 0 {
        let dl = v.drop_last();
        let enc = spec_enc_input_elems(v);
        let dlen = spec_enc_input_elems(dl).len() as int;
        assert(enc.subrange(0, dlen) =~= spec_enc_input_elems(dl));
        lemma_chunk(s, i, enc, 0, spec_enc_input_elems(dl));
        lemma_parse_enc_input_elems(s, i, dl);
        assert(enc.subrange(dlen, enc.len() as int) =~= spec_enc_input(v.last()));
        lemma_chunk(s, i, enc, dlen, spec_enc_input(v.last()));
        lemma_parse_enc_input(s, i + dlen, v.last());
        assert(dl.push(v.last()) =~= v);
    }
}

pub proof fn lemma_parse_input_elems_fail(
    s: Seq<u8>,
    i: int,
    k: nat,
    n: nat,
    v: Seq<CellInput>,
    pos: int,
)
    requires
        spec_parse_input_elems(s, i, k) == Some((v, pos)),
        spec_parse_input(s, pos) is None,
        k < n,
    ensures
        spec_parse_input_elems(s, i, n) is None,
    decreases n,
{
    if n > k + 1 {
        lemma_parse_input_elems_fail(s, i, k, (n - 1) as nat, v, pos);
    }
}

pub proof fn lemma_parse_enc_input_vec(s: Seq<u8>, i: int, v: Seq<CellInput>)
    requires
        0 <= i,
        v.len() <= usize::MAX,
        i + spec_enc_input_vec(v).len() <= s.len(),
        s.subrange(i, i + spec_enc_input_vec(v).len()) == spec_enc_input_vec(v),
    ensures
        spec_parse_input_vec(s, i) == Some((v, i + spec_enc_input_vec(v).len())),
{
    let enc = spec_enc_input_vec(v);
    assert(enc.subrange(0, 8) =~= spec_enc_u64(v.len() as u64));
    lemma_chunk(s, i, enc, 0, spec_enc_u64(v.len() as u64));
    lemma_parse_enc_u64(s, i, v.len() as u64);
    assert(enc.subrange(8, enc.len() as int) =~= spec_enc_input_elems(v));
    lemma_chunk(s, i, enc, 8, spec_enc_input_elems(v));
    lemma_parse_enc_input_elems(s, i + 8, v);
}

pub fn enc_input_vec(v: &Vec<CellInput>, out: &mut Vec<u8>)
    ensures
        final(out)@ == old(out)@ + spec_enc_input_vec(v@),
{
    let ghost base = out@;
    enc_u64(v.len() as u64, out);
    let mut k: usize = 0;
    while k < v.len()
        invariant
            k <= v.len(),
            out@ == base + spec_enc_u64(v@.len() as u64) + spec_enc_input_elems(
                v@.take(k as int),
            ),
        decreases v.len() - k,
    {
        enc_input(&v[k], out);
        proof {
            assert(v@.take(k + 1 as int).drop_last() =~= v@.take(k as int));
            assert(out@ =~= base + spec_enc_u64(v@.len() as u64) + spec_enc_input_elems(
                v@.take(k + 1 as int),
            ));
        }
        k = k + 1;
    }
    proof {
        assert(v@.take(v@.len() as int) =~= v@);
        assert(out@ =~= base + spec_enc_input_vec(v@));
    }
}

pub fn parse_input_vec(s: &Vec<u8>, i: usize) -> (r: Option<(Vec<CellInput>, usize)>)
    ensures
        match r {
            Some((v, j)) => spec_parse_input_vec(s@, i as int) == Some((v@, j as int)),
            None => spec_parse_input_vec(s@, i as int) is None,
        },
{
    match parse_u64(s, i) {
        None => None,
        Some((n64, j0)) => {
            if n64 > usize::MAX as u64 {
                return None;
            }
            let n = n64 as usize;
            let mut v: Vec<CellInput> = Vec::new();
            let mut pos: usize = j0;
            let mut k: usize = 0;
            while k < n
                invariant
                    k <= n,
                    n == n64,
                    spec_parse_u64(s@, i as int) == Some((n64, j0 as int)),
                    spec_parse_input_elems(s@, j0 as int, k as nat) == Some((v@, pos as int)),
                decreases n - k,
            {
                match parse_input(s, pos) {
                    None => {
                        proof {
                            lemma_parse_input_elems_fail(
                                s@,
                                j0 as int,
                                k as nat,
                                n as nat,
                                v@,
                                pos as int,
                            );
                        }
                        return None;
                    },
                    Some((x, np)) => {
                        v.push(x);
                        pos = np;
                        k = k + 1;
                        proof {
                            assert(spec_parse_input_elems(s@, j0 as int, k as nat) == Some(
                                (v@, pos as int),
                            ));
                        }
                    },
                }
            }
            Some((v, pos))
        },
    }
}

pub open spec fn spec_enc_uncle_elems(v: Seq<UncleBlock>) -> Seq<u8>
    decreases v.len(),
{
    if v.len() == 0 {
        Seq::empty()
    } else {
        spec_enc_uncle_elems(v.drop_last()) + spec_enc_uncle(v.last())
    }
}

pub open spec fn spec_enc_uncle_vec(v: Seq<UncleBlock>) -> Seq<u8> {
    spec_enc_u64(v.len() as u64) + spec_enc_uncle_elems(v)
}

pub open spec fn spec_parse_uncle_elems(s: Seq<u8>, i: int, n: nat) -> Option<
    (Seq<UncleBlock>, int),
>
    decreases n,
{
    if n == 0 {
        if 0 <= i <= s.len() {
            Some((Seq::empty(), i))
        } else {
            None
        }
    } else {
        match spec_parse_uncle_elems(s, i, (n - 1) as nat) {
            Some((v, j)) => match spec_parse_uncle(s, j) {
                Some((x, k)) => Some((v.push(x), k)),
                None => None,
            },
            None => None,
        }
    }
}

pub open spec fn spec_parse_uncle_vec(s: Seq<u8>, i: int) -> Option<(Seq<UncleBlock>, int)> {
    match spec_parse_u64(s, i) {
        Some((n, j)) => if n <= usize::MAX as u64 {
            spec_parse_uncle_elems(s, j, n as nat)
        } else {
            None
        },
        None => None,
    }
}

pub proof fn lemma_parse_enc_uncle_elems(s: Seq<u8>, i: int, v: Seq<UncleBlock>)
    requires
        0 <= i,
        i + spec_enc_uncle_elems(v).len() <= s.len(),
        s.subrange(i, i + spec_enc_uncle_elems(v).len()) == spec_enc_uncle_elems(v),
    ensures
        spec_parse_uncle_elems(s, i, v.len()) == Some((v, i + spec_enc_uncle_elems(v).len())),
    decreases v.len(),
{
    if v.len() > 0 {
        let dl = v.drop_last();
        let enc = spec_enc_uncle_elems(v);
        let dlen = spec_enc_uncle_elems(dl).len() as int;
        assert(enc.subrange(0, dlen) =~= spec_enc_uncle_elems(dl));
        lemma_chunk(s, i, enc, 0, spec_enc_uncle_elems(dl));
        lemma_parse_enc_uncle_elems(s, i, dl);
        assert(enc.subrange(dlen, enc.len() as int) =~= spec_enc_uncle(v.last()));
        lemma_chunk(s, i, enc, dlen, spec_enc_uncle(v.last()));
        lemma_parse_enc_uncle(s, i + dlen, v.last());
        assert(dl.push(v.last()) =~= v);
    }
}

pub proof fn lemma_parse_uncle_elems_fail(
    s: Seq<u8>,
    i: int,
    k: nat,
    n: nat,
    v: Seq<UncleBlock>,
    pos: int,
)
    requires
        spec_parse_uncle_elems(s, i, k) == Some((v, pos)),
        spec_parse_uncle(s, pos) is None,
        k < n,
    ensures
        spec_parse_uncle_elems(s, i, n) is None,
    decreases n,
{
    if n > k + 1 {
        lemma_parse_uncle_elems_fail(s, i, k, (n - 1) as nat, v, pos);
    }
}

pub proof fn lemma_parse_enc_uncle_vec(s: Seq<u8>, i: int, v: Seq<UncleBlock>)
    requires
        0 <= i,
        v.len() <= usize::MAX,
        i + spec_enc_uncle_vec(v).len() <= s.len(),
        s.subrange(i, i + spec_enc_uncle_vec(v).len()) == spec_enc_uncle_vec(v),
    ensures
        spec_parse_uncle_vec(s, i) == Some((v, i + spec_enc_uncle_vec(v).len())),
{
    let enc = spec_enc_uncle_vec(v);
    assert(enc.subrange(0, 8) =~= spec_enc_u64(v.len() as u64));
    lemma_chunk(s, i, enc, 0, spec_enc_u64(v.len() as u64));
    lemma_parse_enc_u64(s, i, v.len() as u64);
    assert(enc.subrange(8, enc.len() as int) =~= spec_enc_uncle_elems(v));
    lemma_chunk(s, i, enc, 8, spec_enc_uncle_elems(v));
    lemma_parse_enc_uncle_elems(s, i + 8, v);
}

pub fn enc_uncle_vec(v: &Vec<UncleBlock>, out: &mut Vec<u8>)
    ensures
        final(out)@ == old(out)@ + spec_enc_uncle_vec(v@),
{
    let ghost base = out@;
    enc_u64(v.len() as u64, out);
    let mut k: usize = 0;
    while k < v.len()
        invariant
            k <= v.len(),
            out@ == base + spec_enc_u64(v@.len() as u64) + spec_enc_uncle_elems(
                v@.take(k as int),
            ),
        decreases v.len() - k,
    {
        enc_uncle(&v[k], out);
        proof {
            assert(v@.take(k + 1 as int).drop_last() =~= v@.take(k as int));
            assert(out@ =~= base + spec_enc_u64(v@.len() as u64) + spec_enc_uncle_elems(
                v@.take(k + 1 as int),
            ));
        }
        k = k + 1;
    }
    proof {
        assert(v@.take(v@.len() as int) =~= v@);
        assert(out@ =~= base + spec_enc_uncle_vec(v@));
    }
}

pub fn parse_uncle_vec(s: &Vec<u8>, i: usize) -> (r: Option<(Vec<UncleBlock>, usize)>)
    ensures
        match r {
            Some((v, j)) => spec_parse_uncle_vec(s@, i as int) == Some((v@, j as int)),
            None => spec_parse_uncle_vec(s@, i as int) is None,
        },
{
    match parse_u64(s, i) {
        None => None,
        Some((n64, j0)) => {
            if n64 > usize::MAX as u64 {
                return None;
            }
            let n = n64 as usize;
            let mut v: Vec<UncleBlock> = Vec::new();
            let mut pos: usize = j0;
            let mut k: usize = 0;
            while k < n
                invariant
                    k <= n,
                    n == n64,
                    spec_parse_u64(s@, i as int) == Some((n64, j0 as int)),
                    spec_parse_uncle_elems(s@, j0 as int, k as nat) == Some((v@, pos as int)),
                decreases n - k,
            {
                match parse_uncle(s, pos) {
                    None => {
                        proof {
                            lemma_parse_uncle_elems_fail(
                                s@,
                                j0 as int,
                                k as nat,
                                n as nat,
                                v@,
                                pos as int,
                            );
                        }
                        return None;
                    },
                    Some((x, np)) => {
                        v.push(x);
                        pos = np;
                        k = k + 1;
                        proof {
                            assert(spec_parse_uncle_elems(s@, j0 as int, k as nat) == Some(
                                (v@, pos as int),
                            ));
                        }
                    },
                }
            }
            Some((v, pos))
        },
    }
}

pub open spec fn spec_enc_address_elems(v: Seq<Address>) -> Seq<u8>
    decreases v.len(),
{
    if v.len() == 0 {
        Seq::empty()
    } else {
        spec_enc_address_elems(v.drop_last()) + spec_enc_address(v.last())
    }
}

pub open spec fn spec_enc_address_vec(v: Seq<Address>) -> Seq<u8> {
    spec_enc_u64(v.len() as u64) + spec_enc_address_elems(v)
}

pub open spec fn spec_parse_address_elems(s: Seq<u8>, i: int, n: nat) -> Option<(Seq<Address>, int)>
    decreases n,
{
    if n == 0 {
        if 0 <= i <= s.len() {
            Some((Seq::empty(), i))
        } else {
            None
        }
    } else {
        match spec_parse_address_elems(s, i, (n - 1) as nat) {
            Some((v, j)) => match spec_parse_address(s, j) {
                Some((x, k)) => Some((v.push(x), k)),
                None => None,
            },
            None => None,
        }
    }
}

pub open spec fn spec_parse_address_vec(s: Seq<u8>, i: int) -> Option<(Seq<Address>, int)> {
    match spec_parse_u64(s, i) {
        Some((n, j)) => if n <= usize::MAX as u64 {
            spec_parse_address_elems(s, j, n as nat)
        } else {
            None
        },
        None => None,
    }
}

pub proof fn lemma_parse_enc_address_elems(s: Seq<u8>, i: int, v: Seq<Address>)
    requires
        0 <= i,
        i + spec_enc_address_elems(v).len() <= s.len(),
        s.subrange(i, i + spec_enc_address_elems(v).len()) == spec_enc_address_elems(v),
    ensures
        spec_parse_address_elems(s, i, v.len()) == Some((v, i + spec_enc_address_elems(v).len())),
    decreases v.len(),
{
    if v.len() > 0 {
        let dl = v.drop_last();
        let enc = spec_enc_address_elems(v);
        let dlen = spec_enc_address_elems(dl).len() as int;
        assert(enc.subrange(0, dlen) =~= spec_enc_address_elems(dl));
        lemma_chunk(s, i, enc, 0, spec_enc_address_elems(dl));
        lemma_parse_enc_address_elems(s, i, dl);
        assert(enc.subrange(dlen, enc.len() as int) =~= spec_enc_address(v.last()));
        lemma_chunk(s, i, enc, dlen, spec_enc_address(v.last()));
        lemma_parse_enc_address(s, i + dlen, v.last());
        assert(dl.push(v.last()) =~= v);
    }
}

pub proof fn lemma_parse_address_elems_fail(
    s: Seq<u8>,
    i: int,
    k: nat,
    n: nat,
    v: Seq<Address>,
    pos: int,
)
    requires
        spec_parse_address_elems(s, i, k) == Some((v, pos)),
        spec_parse_address(s, pos) is None,
        k < n,
    ensures
        spec_parse_address_elems(s, i, n) is None,
    decreases n,
{
    if n > k + 1 {
        lemma_parse_address_elems_fail(s, i, k, (n - 1) as nat, v, pos);
    }
}

pub proof fn lemma_parse_enc_address_vec(s: Seq<u8>, i: int, v: Seq<Address>)
    requires
        0 <= i,
        v.len() <= usize::MAX,
        i + spec_enc_address_vec(v).len() <= s.len(),
        s.subrange(i, i + spec_enc_address_vec(v).len()) == spec_enc_address_vec(v),
    ensures
        spec_parse_address_vec(s, i) == Some((v, i + spec_enc_address_vec(v).len())),
{
    let enc = spec_enc_address_vec(v);
    assert(enc.subrange(0, 8) =~= spec_enc_u64(v.len() as u64));
    lemma_chunk(s, i, enc, 0, spec_enc_u64(v.len() as u64));
    lemma_parse_enc_u64(s, i, v.len() as u64);
    assert(enc.subrange(8, enc.len() as int) =~= spec_enc_address_elems(v));
    lemma_chunk(s, i, enc, 8, spec_enc_address_elems(v));
    lemma_parse_enc_address_elems(s, i + 8, v);
}

pub fn enc_address_vec(v: &Vec<Address>, out: &mut Vec<u8>)
    ensures
        final(out)@ == old(out)@ + spec_enc_address_vec(v@),
{
    let ghost base = out@;
    enc_u64(v.len() as u64, out);
    let mut k: usize = 0;
    while k < v.len()
        invariant
            k <= v.len(),
            out@ == base + spec_enc_u64(v@.len() as u64) + spec_enc_address_elems(
                v@.take(k as int),
            ),
        decreases v.len() - k,
    {
        enc_address(&v[k], out);
        proof {
            assert(v@.take(k + 1 as int).drop_last() =~= v@.take(k as int));
            assert(out@ =~= base + spec_enc_u64(v@.len() as u64) + spec_enc_address_elems(
                v@.take(k + 1 as int),
            ));
        }
        k = k + 1;
    }
    proof {
        assert(v@.take(v@.len() as int) =~= v@);
        assert(out@ =~= base + spec_enc_address_vec(v@));
    }
}

pub fn parse_address_vec(s: &Vec<u8>, i: usize) -> (r: Option<(Vec<Address>, usize)>)
    ensures
        match r {
            Some((v, j)) => spec_parse_address_vec(s@, i as int) == Some((v@, j as int)),
            None => spec_parse_address_vec(s@, i as int) is None,
        },
{
    match parse_u64(s, i) {
        None => None,
        Some((n64, j0)) => {
            if n64 > usize::MAX as u64 {
                return None;
            }
            let n = n64 as usize;
            let mut v: Vec<Address> = Vec::new();
            let mut pos: usize = j0;
            let mut k: usize = 0;
            while k < n
                invariant
                    k <= n,
                    n == n64,
                    spec_parse_u64(s@, i as int) == Some((n64, j0 as int)),
                    spec_parse_address_elems(s@, j0 as int, k as nat) == Some((v@, pos as int)),
                decreases n - k,
            {
                match parse_address(s, pos) {
                    None => {
                        proof {
                            lemma_parse_address_elems_fail(
                                s@,
                                j0 as int,
                                k as nat,
                                n as nat,
                                v@,
                                pos as int,
                            );
                        }
                        return None;
                    },
                    Some((x, np)) => {
                        v.push(x);
                        pos = np;
                        k = k + 1;
                        proof {
                            assert(spec_parse_address_elems(s@, j0 as int, k as nat) == Some(
                                (v@, pos as int),
                            ));
                        }
                    },
                }
            }
            Some((v, pos))
        },
    }
}

pub open spec fn spec_enc_output_elems(v: Seq<CellOutputView>) -> Seq<u8>
    decreases v.len(),
{
    if v.len() == 0 {
        Seq::empty()
    } else {
        spec_enc_output_elems(v.drop_last()) + spec_enc_output(v.last())
    }
}

pub open spec fn spec_enc_output_vec(v: Seq<CellOutputView>) -> Seq<u8> {
    spec_enc_u64(v.len() as u64) + spec_enc_output_elems(v)
}

pub open spec fn spec_parse_output_elems(s: Seq<u8>, i: int, n: nat) -> Option<
    (Seq<CellOutputView>, int),
>
    decreases n,
{
    if n == 0 {
        if 0 <= i <= s.len() {
            Some((Seq::empty(), i))
        } else {
            None
        }
    } else {
        match spec_parse_output_elems(s, i, (n - 1) as nat) {
            Some((v, j)) => match spec_parse_output(s, j) {
                Some((x, k)) => Some((v.push(x), k)),
                None => None,
            },
            None => None,
        }
    }
}

pub open spec fn spec_parse_output_vec(s: Seq<u8>, i: int) -> Option<(Seq<CellOutputView>, int)> {
    match spec_parse_u64(s, i) {
        Some((n, j)) => if n <= usize::MAX as u64 {
            spec_parse_output_elems(s, j, n as nat)
        } else {
            None
        },
        None => None,
    }
}

pub proof fn lemma_parse_enc_output_elems(s: Seq<u8>, i: int, v: Seq<CellOutputView>)
    requires
        0 <= i,
        forall|k: int| 0 <= k < v.len() ==> output_wf(#[trigger] v[k]),
        i + spec_enc_output_elems(v).len() <= s.len(),
        s.subrange(i, i + spec_enc_output_elems(v).len()) == spec_enc_output_elems(v),
    ensures
        spec_parse_output_elems(s, i, v.len()) == Some((v, i + spec_enc_output_elems(v).len())),
    decreases v.len(),
{
    if v.len() > 0 {
        let dl = v.drop_last();
        let enc = spec_enc_output_elems(v);
        let dlen = spec_enc_output_elems(dl).len() as int;
        assert(enc.subrange(0, dlen) =~= spec_enc_output_elems(dl));
        lemma_chunk(s, i, enc, 0, spec_enc_output_elems(dl));
        lemma_parse_enc_output_elems(s, i, dl);
        assert(enc.subrange(dlen, enc.len() as int) =~= spec_enc_output(v.last()));
        lemma_chunk(s, i, enc, dlen, spec_enc_output(v.last()));
        assert(v.last() == v[v.len() - 1]);
        lemma_parse_enc_output(s, i + dlen, v.last());
        assert(dl.push(v.last()) =~= v);
    }
}

pub proof fn lemma_parse_output_elems_fail(
    s: Seq<u8>,
    i: int,
    k: nat,
    n: nat,
    v: Seq<CellOutputView>,
    pos: int,
)
    requires
        spec_parse_output_elems(s, i, k) == Some((v, pos)),
        spec_parse_output(s, pos) is None,
        k < n,
    ensures
        spec_parse_output_elems(s, i, n) is None,
    decreases n,
{
    if n > k + 1 {
        lemma_parse_output_elems_fail(s, i, k, (n - 1) as nat, v, pos);
    }
}

pub proof fn lemma_parse_enc_output_vec(s: Seq<u8>, i: int, v: Seq<CellOutputView>)
    requires
        0 <= i,
        v.len() <= usize::MAX,
        forall|k: int| 0 <= k < v.len() ==> output_wf(#[trigger] v[k]),
        i + spec_enc_output_vec(v).len() <= s.len(),
        s.subrange(i, i + spec_enc_output_vec(v).len()) == spec_enc_output_vec(v),
    ensures
        spec_parse_output_vec(s, i) == Some((v, i + spec_enc_output_vec(v).len())),
{
    let enc = spec_enc_output_vec(v);
    assert(enc.subrange(0, 8) =~= spec_enc_u64(v.len() as u64));
    lemma_chunk(s, i, enc, 0, spec_enc_u64(v.len() as u64));
    lemma_parse_enc_u64(s, i, v.len() as u64);
    assert(enc.subrange(8, enc.len() as int) =~= spec_enc_output_elems(v));
    lemma_chunk(s, i, enc, 8, spec_enc_output_elems(v));
    lemma_parse_enc_output_elems(s, i + 8, v);
}

/// The views of a vector of outputs, elementwise.
pub open spec fn outputs_view(v: Seq<CellOutput>) -> Seq<CellOutputView> {
    v.map_values(|o: CellOutput| o@)
}

pub fn enc_output_vec(v: &Vec<CellOutput>, out: &mut Vec<u8>)
    ensures
        final(out)@ == old(out)@ + spec_enc_output_vec(outputs_view(v@)),
{
    let ghost base = out@;
    enc_u64(v.len() as u64, out);
    let mut k: usize = 0;
    while k < v.len()
        invariant
            k <= v.len(),
            out@ == base + spec_enc_u64(v@.len() as u64) + spec_enc_output_elems(
                outputs_view(v@).take(k as int),
            ),
        decreases v.len() - k,
    {
        enc_output(&v[k], out);
        proof {
            assert(outputs_view(v@).take(k + 1 as int).drop_last() =~= outputs_view(v@).take(
                k as int,
            ));
            assert(outputs_view(v@).take(k + 1 as int).last() == v@[k as int]@);
            assert(out@ =~= base + spec_enc_u64(v@.len() as u64) + spec_enc_output_elems(
                outputs_view(v@).take(k + 1 as int),
            ));
        }
        k = k + 1;
    }
    proof {
        assert(outputs_view(v@).take(v@.len() as int) =~= outputs_view(v@));
        assert(out@ =~= base + spec_enc_output_vec(outputs_view(v@)));
    }
}

pub fn parse_output_vec(s: &Vec<u8>, i: usize) -> (r: Option<(Vec<CellOutput>, usize)>)
    ensures
        match r {
            Some((v, j)) => spec_parse_output_vec(s@, i as int) == Some(
                (outputs_view(v@), j as int),
            ),
            None => spec_parse_output_vec(s@, i as int) is None,
        },
{
    match parse_u64(s, i) {
        None => None,
        Some((n64, j0)) => {
            if n64 > usize::MAX as u64 {
                return None;
            }
            let n = n64 as usize;
            let mut v: Vec<CellOutput> = Vec::new();
            let mut pos: usize = j0;
            let mut k: usize = 0;
            proof {
                assert(outputs_view(v@) =~= Seq::<CellOutputView>::empty());
            }
            while k < n
                invariant
                    k <= n,
                    n == n64,
                    spec_parse_u64(s@, i as int) == Some((n64, j0 as int)),
                    spec_parse_output_elems(s@, j0 as int, k as nat) == Some(
                        (outputs_view(v@), pos as int),
                    ),
                decreases n - k,
            {
                match parse_output(s, pos) {
                    None => {
                        proof {
                            lemma_parse_output_elems_fail(
                                s@,
                                j0 as int,
                                k as nat,
                                n as nat,
                                outputs_view(v@),
                                pos as int,
                            );
                        }
                        return None;
                    },
                    Some((x, np)) => {
                        let ghost prev = outputs_view(v@);
                        let ghost xv = x@;
                        v.push(x);
                        pos = np;
                        k = k + 1;
                        proof {
                            assert(outputs_view(v@) =~= prev.push(xv));
                            assert(spec_parse_output_elems(s@, j0 as int, k as nat) == Some(
                                (outputs_view(v@), pos as int),
                            ));
                        }
                    },
                }
            }
            Some((v, pos))
        },
    }
}

// ---------------------------------------------------------------------
// transactions
// ---------------------------------------------------------------------

/// A transaction value small enough for every count and byte-length prefix
/// it carries.  Every value held in a `Transaction` satisfies this.
pub open spec fn tx_wf(t: TransactionView) -> bool {
    &&& t.deps.len() <= usize::MAX
    &&& t.inputs.len() <= usize::MAX
    &&& t.outputs.len() <= usize::MAX
    &&& forall|k: int| 0 <= k < t.outputs.len() ==> output_wf(#[trigger] t.outputs[k])
}

pub open spec fn spec_enc_tx(t: TransactionView) -> Seq<u8> {
    spec_enc_u32(t.version) + spec_enc_outpoint_vec(t.deps) + spec_enc_input_vec(t.inputs)
        + spec_enc_output_vec(t.outputs)
}

pub open spec fn spec_parse_tx(s: Seq<u8>, i: int) -> Option<(TransactionView, int)> {
    match spec_parse_u32(s, i) {
        Some((version, i1)) => match spec_parse_outpoint_vec(s, i1) {
            Some((deps, i2)) => match spec_parse_input_vec(s, i2) {
                Some((inputs, i3)) => match spec_parse_output_vec(s, i3) {
                    Some((outputs, i4)) => Some(
                        (TransactionView { version, deps, inputs, outputs }, i4),
                    ),
                    None => None,
                },
                None => None,
            },
            None => None,
        },
        None => None,
    }
}

#[verifier::rlimit(50)]
pub proof fn lemma_parse_enc_tx(s: Seq<u8>, i: int, t: TransactionView)
    requires
        0 <= i,
        tx_wf(t),
        i + spec_enc_tx(t).len() <= s.len(),
        s.subrange(i, i + spec_enc_tx(t).len()) == spec_enc_tx(t),
    ensures
        spec_parse_tx(s, i) == Some((t, i + spec_enc_tx(t).len())),
{
    let enc = spec_enc_tx(t);
    let n1 = 4int;
    let n2 = n1 + spec_enc_outpoint_vec(t.deps).len();
    let n3 = n2 + spec_enc_input_vec(t.inputs).len();
    let n4 = n3 + spec_enc_output_vec(t.outputs).len();
    assert(enc.subrange(0, n1) =~= spec_enc_u32(t.version));
    assert(enc.subrange(n1, n2) =~= spec_enc_outpoint_vec(t.deps));
    assert(enc.subrange(n2, n3) =~= spec_enc_input_vec(t.inputs));
    assert(enc.subrange(n3, n4) =~= spec_enc_output_vec(t.outputs));
    lemma_chunk(s, i, enc, 0, spec_enc_u32(t.version));
    lemma_chunk(s, i, enc, n1, spec_enc_outpoint_vec(t.deps));
    lemma_chunk(s, i, enc, n2, spec_enc_input_vec(t.inputs));
    lemma_chunk(s, i, enc, n3, spec_enc_output_vec(t.outputs));
    lemma_parse_enc_u32(s, i, t.version);
    lemma_parse_enc_outpoint_vec(s, i + n1, t.deps);
    lemma_parse_enc_input_vec(s, i + n2, t.inputs);
    lemma_parse_enc_output_vec(s, i + n3, t.outputs);
}

pub fn enc_tx(t: &Transaction, out: &mut Vec<u8>)
    ensures
        final(out)@ == old(out)@ + spec_enc_tx(t@),
{
    let ghost base = out@;
    enc_u32(t.version, out);
    enc_outpoint_vec(&t.deps, out);
    enc_input_vec(&t.inputs, out);
    enc_output_vec(&t.outputs, out);
    proof {
        assert(out@ =~= base + spec_enc_tx(t@));
    }
}

pub fn parse_tx(s: &Vec<u8>, i: usize) -> (r: Option<(Transaction, usize)>)
    ensures
        match r {
            Some((t, j)) => spec_parse_tx(s@, i as int) == Some((t@, j as int)),
            None => spec_parse_tx(s@, i as int) is None,
        },
{
    match parse_u32(s, i) {
        None => None,
        Some((version, i1)) => match parse_outpoint_vec(s, i1) {
            None => None,
            Some((deps, i2)) => match parse_input_vec(s, i2) {
                None => None,
                Some((inputs, i3)) => match parse_output_vec(s, i3) {
                    None => None,
                    Some((outputs, i4)) => Some(
                        (Transaction { version, deps, inputs, outputs }, i4),
                    ),
                },
            },
        },
    }
}

// ---------------------------------------------------------------------
// whole-buffer decoders
// ---------------------------------------------------------------------

pub open spec fn spec_dec_u64(s: Seq<u8>) -> Option<u64> {
    match spec_parse_u64(s, 0) {
        Some((x, j)) => if j == s.len() {
            Some(x)
        } else {
            None
        },
        None => None,
    }
}

pub fn dec_u64(s: &Vec<u8>) -> (r: Option<u64>)
    ensures
        r == spec_dec_u64(s@),
{
    match parse_u64(s, 0) {
        Some((x, j)) => if j == s.len() {
            Some(x)
        } else {
            None
        },
        None => None,
    }
}

pub proof fn lemma_dec_enc_u64(x: u64)
    ensures
        spec_dec_u64(spec_enc_u64(x)) == Some(x),
{
    let enc = spec_enc_u64(x);
    assert(enc.subrange(0, 8) =~= enc);
    lemma_parse_enc_u64(enc, 0, x);
}

pub open spec fn spec_dec_header(s: Seq<u8>) -> Option<Header> {
    match spec_parse_header(s, 0) {
        Some((h, j)) => if j == s.len() {
            Some(h)
        } else {
            None
        },
        None => None,
    }
}

pub fn dec_header(s: &Vec<u8>) -> (r: Option<Header>)
    ensures
        r == spec_dec_header(s@),
{
    match parse_header(s, 0) {
        Some((h, j)) => if j == s.len() {
            Some(h)
        } else {
            None
        },
        None => None,
    }
}

pub proof fn lemma_dec_enc_header(h: Header)
    ensures
        spec_dec_header(spec_enc_header(h)) == Some(h),
{
    let enc = spec_enc_header(h);
    assert(enc.subrange(0, 60) =~= enc);
    lemma_parse_enc_header(enc, 0, h);
}

pub open spec fn spec_dec_uncle_vec(s: Seq<u8>) -> Option<Seq<UncleBlock>> {
    match spec_parse_uncle_vec(s, 0) {
        Some((v, j)) => if j == s.len() {
            Some(v)
        } else {
            None
        },
        None => None,
    }
}

pub fn dec_uncle_vec(s: &Vec<u8>) -> (r: Option<Vec<UncleBlock>>)
    ensures
        match r {
            Some(v) => spec_dec_uncle_vec(s@) == Some(v@),
            None => spec_dec_uncle_vec(s@) is None,
        },
{
    match parse_uncle_vec(s, 0) {
        Some((v, j)) => if j == s.len() {
            Some(v)
        } else {
            None
        },
        None => None,
    }
}

pub proof fn lemma_dec_enc_uncle_vec(v: Seq<UncleBlock>)
    requires
        v.len() <= usize::MAX,
    ensures
        spec_dec_uncle_vec(spec_enc_uncle_vec(v)) == Some(v),
{
    let enc = spec_enc_uncle_vec(v);
    assert(enc.subrange(0, enc.len() as int) =~= enc);
    lemma_parse_enc_uncle_vec(enc, 0, v);
}

pub open spec fn spec_dec_psid_vec(s: Seq<u8>) -> Option<Seq<ProposalShortId>> {
    match spec_parse_psid_vec(s, 0) {
        Some((v, j)) => if j == s.len() {
            Some(v)
        } else {
            None
        },
        None => None,
    }
}

pub fn dec_psid_vec(s: &Vec<u8>) -> (r: Option<Vec<ProposalShortId>>)
    ensures
        match r {
            Some(v) => spec_dec_psid_vec(s@) == Some(v@),
            None => spec_dec_psid_vec(s@) is None,
        },
{
    match parse_psid_vec(s, 0) {
        Some((v, j)) => if j == s.len() {
            Some(v)
        } else {
            None
        },
        None => None,
    }
}

pub proof fn lemma_dec_enc_psid_vec(v: Seq<ProposalShortId>)
    requires
        v.len() <= usize::MAX,
    ensures
        spec_dec_psid_vec(spec_enc_psid_vec(v)) == Some(v),
{
    let enc = spec_enc_psid_vec(v);
    assert(enc.subrange(0, enc.len() as int) =~= enc);
    lemma_parse_enc_psid_vec(enc, 0, v);
}

pub open spec fn spec_dec_address_vec(s: Seq<u8>) -> Option<Seq<Address>> {
    match spec_parse_address_vec(s, 0) {
        Some((v, j)) => if j == s.len() {
            Some(v)
        } else {
            None
        },
        None => None,
    }
}

pub fn dec_address_vec(s: &Vec<u8>) -> (r: Option<Vec<Address>>)
    ensures
        match r {
            Some(v) => spec_dec_address_vec(s@) == Some(v@),
            None => spec_dec_address_vec(s@) is None,
        },
{
    match parse_address_vec(s, 0) {
        Some((v, j)) => if j == s.len() {
            Some(v)
        } else {
            None
        },
        None => None,
    }
}

pub proof fn lemma_dec_enc_address_vec(v: Seq<Address>)
    requires
        v.len() <= usize::MAX,
    ensures
        spec_dec_address_vec(spec_enc_address_vec(v)) == Some(v),
{
    let enc = spec_enc_address_vec(v);
    assert(enc.subrange(0, enc.len() as int) =~= enc);
    lemma_parse_enc_address_vec(enc, 0, v);
}

pub open spec fn spec_dec_ext(s: Seq<u8>) -> Option<BlockExt> {
    match spec_parse_ext(s, 0) {
        Some((e, j)) => if j == s.len() {
            Some(e)
        } else {
            None
        },
        None => None,
    }
}

pub fn dec_ext(s: &Vec<u8>) -> (r: Option<BlockExt>)
    ensures
        r == spec_dec_ext(s@),
{
    match parse_ext(s, 0) {
        Some((e, j)) => if j == s.len() {
            Some(e)
        } else {
            None
        },
        None => None,
    }
}

pub proof fn lemma_dec_enc_ext(e: BlockExt)
    ensures
        spec_dec_ext(spec_enc_ext(e)) == Some(e),
{
    let enc = spec_enc_ext(e);
    assert(enc.subrange(0, 25) =~= enc);
    lemma_parse_enc_ext(enc, 0, e);
}

pub open spec fn spec_dec_tx_addr(s: Seq<u8>) -> Option<TransactionAddress> {
    match spec_parse_tx_addr(s, 0) {
        Some((a, j)) => if j == s.len() {
            Some(a)
        } else {
            None
        },
        None => None,
    }
}

pub fn dec_tx_addr(s: &Vec<u8>) -> (r: Option<TransactionAddress>)
    ensures
        r == spec_dec_tx_addr(s@),
{
    match parse_tx_addr(s, 0) {
        Some((a, j)) => if j == s.len() {
            Some(a)
        } else {
            None
        },
        None => None,
    }
}

pub proof fn lemma_dec_enc_tx_addr(a: TransactionAddress)
    ensures
        spec_dec_tx_addr(spec_enc_tx_addr(a)) == Some(a),
{
    let enc = spec_enc_tx_addr(a);
    assert(enc.subrange(0, 48) =~= enc);
    lemma_parse_enc_tx_addr(enc, 0, a);
}

pub open spec fn spec_dec_tx(s: Seq<u8>) -> Option<TransactionView> {
    match spec_parse_tx(s, 0) {
        Some((t, j)) => if j == s.len() {
            Some(t)
        } else {
            None
        },
        None => None,
    }
}

pub fn dec_tx(s: &Vec<u8>) -> (r: Option<Transaction>)
    ensures
        match r {
            Some(t) => spec_dec_tx(s@) == Some(t@),
            None => spec_dec_tx(s@) is None,
        },
{
    match parse_tx(s, 0) {
        Some((t, j)) => if j == s.len() {
            Some(t)
        } else {
            None
        },
        None => None,
    }
}

pub proof fn lemma_dec_enc_tx(t: TransactionView)
    requires
        tx_wf(t),
    ensures
        spec_dec_tx(spec_enc_tx(t)) == Some(t),
{
    let enc = spec_enc_tx(t);
    assert(enc.subrange(0, enc.len() as int) =~= enc);
    lemma_parse_enc_tx(enc, 0, t);
}

// ---------------------------------------------------------------------
// flat-packed block bodies
// ---------------------------------------------------------------------

/// The views of a vector of transactions, elementwise.
pub open spec fn txs_view(v: Seq<Transaction>) -> Seq<TransactionView> {
    v.map_values(|t: Transaction| t@)
}

/// The flat-packed body of a block: the transactions' serialized bytes
/// concatenated with no per-transaction framing.
pub open spec fn spec_flat_body(txs: Seq<TransactionView>) -> Seq<u8>
    decreases txs.len(),
{
    if txs.len() == 0 {
        Seq::empty()
    } else {
        spec_flat_body(txs.drop_last()) + spec_enc_tx(txs.last())
    }
}

/// The byte window of each transaction inside the flat-packed body.
pub open spec fn spec_flat_addrs(txs: Seq<TransactionView>) -> Seq<Address>
    decreases txs.len(),
{
    if txs.len() == 0 {
        Seq::empty()
    } else {
        spec_flat_addrs(txs.drop_last()).push(
            Address {
                offset: spec_flat_body(txs.drop_last()).len() as u64,
                length: spec_enc_tx(txs.last()).len() as u64,
            },
        )
    }
}

pub proof fn lemma_flat_addrs_len(txs: Seq<TransactionView>)
    ensures
        spec_flat_addrs(txs).len() == txs.len(),
    decreases txs.len(),
{
    if txs.len() > 0 {
        lemma_flat_addrs_len(txs.drop_last());
    }
}

/// Each recorded window of the flat body holds exactly the encoding of the
/// corresponding transaction.
pub proof fn lemma_flat_window(txs: Seq<TransactionView>, i: int)
    requires
        0 <= i < txs.len(),
        spec_flat_body(txs).len() <= u64::MAX,
    ensures
        spec_flat_addrs(txs).len() == txs.len(),
        spec_flat_addrs(txs)[i].offset + spec_flat_addrs(txs)[i].length <= spec_flat_body(
            txs,
        ).len(),
        spec_flat_body(txs).subrange(
            spec_flat_addrs(txs)[i].offset as int,
            spec_flat_addrs(txs)[i].offset + spec_flat_addrs(txs)[i].length,
        ) == spec_enc_tx(txs[i]),
    decreases txs.len(),
{
    lemma_flat_addrs_len(txs);
    let dl = txs.drop_last();
    let body = spec_flat_body(txs);
    let pre = spec_flat_body(dl);
    if i == txs.len() - 1 {
        let a = spec_flat_addrs(txs)[i];
        assert(a.offset == pre.len() && a.length == spec_enc_tx(txs.last()).len());
        assert(body.subrange(a.offset as int, a.offset + a.length) =~= spec_enc_tx(txs[i]));
    } else {
        lemma_flat_addrs_len(dl);
        lemma_flat_window(dl, i);
        let a = spec_flat_addrs(dl)[i];
        assert(spec_flat_addrs(txs)[i] == a);
        assert(body.subrange(a.offset as int, a.offset + a.length) =~= pre.subrange(
            a.offset as int,
            a.offset + a.length,
        ));
        assert(txs[i] == dl[i]);
    }
}

/// Serializes the transactions into one flat body and the companion window
/// vector.
pub fn flat_serialize(txs: &Vec<Transaction>) -> (r: (Vec<u8>, Vec<Address>))
    ensures
        r.0@ == spec_flat_body(txs_view(txs@)),
        r.1@ == spec_flat_addrs(txs_view(txs@)),
{
    let mut body: Vec<u8> = Vec::new();
    let mut addrs: Vec<Address> = Vec::new();
    let mut k: usize = 0;
    proof {
        assert(body@ =~= spec_flat_body(txs_view(txs@).take(0)));
        assert(addrs@ =~= spec_flat_addrs(txs_view(txs@).take(0)));
    }
    while k < txs.len()
        invariant
            k <= txs.len(),
            body@ == spec_flat_body(txs_view(txs@).take(k as int)),
            addrs@ == spec_flat_addrs(txs_view(txs@).take(k as int)),
        decreases txs.len() - k,
    {
        let off = body.len() as u64;
        let ghost pre = body@;
        enc_tx(&txs[k], &mut body);
        let len = (body.len() as u64) - off;
        addrs.push(Address { offset: off, length: len });
        proof {
            assert(txs_view(txs@).take(k + 1 as int).drop_last() =~= txs_view(txs@).take(k as int));
            assert(txs_view(txs@).take(k + 1 as int).last() == txs@[k as int]@);
            assert(body@ =~= spec_flat_body(txs_view(txs@).take(k + 1 as int)));
            assert(addrs@ =~= spec_flat_addrs(txs_view(txs@).take(k + 1 as int)));
        }
        k = k + 1;
    }
    proof {
        assert(txs_view(txs@).take(txs@.len() as int) =~= txs_view(txs@));
    }
    (body, addrs)
}

/// The window vector alone, as written beside a block when it is attached.
pub fn serialized_addresses(txs: &Vec<Transaction>) -> (r: Vec<Address>)
    ensures
        r@ == spec_flat_addrs(txs_view(txs@)),
{
    let (_, addrs) = flat_serialize(txs);
    addrs
}

// ---------------------------------------------------------------------
// digests
// ---------------------------------------------------------------------

/// One byte absorbed into the four running digest words.
pub open spec fn spec_digest_step(a: u64, b: u64, c: u64, d: u64, x: u64) -> (u64, u64, u64, u64) {
    (
        ((a << 7) | (a >> 57)) ^ b ^ x,
        ((b << 13) | (b >> 51)) ^ c ^ x,
        ((c << 23) | (c >> 41)) ^ d ^ x,
        ((d << 31) | (d >> 33)) ^ a ^ x,
    )
}

/// The four digest words of a byte string, absorbed left to right from
/// fixed seeds.
pub open spec fn spec_digest_words(s: Seq<u8>) -> (u64, u64, u64, u64)
    decreases s.len(),
{
    if s.len() == 0 {
        (0x6a09e667f3bcc908u64, 0xbb67ae8584caa73bu64, 0x3c6ef372fe94f82bu64, 0xa54ff53a5f1d36f1u64)
    } else {
        let w = spec_digest_words(s.drop_last());
        spec_digest_step(w.0, w.1, w.2, w.3, s.last() as u64)
    }
}

/// The digest of a byte string: a fixed function of the bytes alone.
pub open spec fn spec_digest(s: Seq<u8>) -> H256 {
    let w = spec_digest_words(s);
    H256 { w0: w.0, w1: w.1, w2: w.2, w3: w.3 }
}

pub fn digest(s: &Vec<u8>) -> (r: H256)
    ensures
        r == spec_digest(s@),
{
    let mut a: u64 = 0x6a09e667f3bcc908;
    let mut b: u64 = 0xbb67ae8584caa73b;
    let mut c: u64 = 0x3c6ef372fe94f82b;
    let mut d: u64 = 0xa54ff53a5f1d36f1;
    let mut k: usize = 0;
    proof {
        assert(s@.take(0) =~= Seq::<u8>::empty());
    }
    while k < s.len()
        invariant
            k <= s.len(),
            (a, b, c, d) == spec_digest_words(s@.take(k as int)),
        decreases s.len() - k,
    {
        let x = s[k] as u64;
        let na = ((a << 7) | (a >> 57)) ^ b ^ x;
        let nb = ((b << 13) | (b >> 51)) ^ c ^ x;
        let nc = ((c << 23) | (c >> 41)) ^ d ^ x;
        let nd = ((d << 31) | (d >> 33)) ^ a ^ x;
        proof {
            assert(s@.take(k + 1 as int).drop_last() =~= s@.take(k as int));
            assert(s@.take(k + 1 as int).last() == s@[k as int]);
        }
        a = na;
        b = nb;
        c = nc;
        d = nd;
        k = k + 1;
    }
    proof {
        assert(s@.take(s@.len() as int) =~= s@);
    }
    H256 { w0: a, w1: b, w2: c, w3: d }
}

/// The hash of a transaction: the digest of its serialized bytes.
pub open spec fn spec_tx_hash(t: TransactionView) -> H256 {
    spec_digest(spec_enc_tx(t))
}

impl Transaction {
    pub fn hash(&self) -> (r: H256)
        ensures
            r == spec_tx_hash(self@),
    {
        let mut buf: Vec<u8> = Vec::new();
        enc_tx(self, &mut buf);
        digest(&buf)
    }
}

/// The hash of a header, which is the hash of its block: the digest of the
/// header's serialized bytes.
pub open spec fn spec_header_hash(h: Header) -> H256 {
    spec_digest(spec_enc_header(h))
}

impl Header {
    pub fn hash(&self) -> (r: H256)
        ensures
            r == spec_header_hash(*self),
    {
        let mut buf: Vec<u8> = Vec::new();
        enc_header(self, &mut buf);
        digest(&buf)
    }
}

} // verus!
