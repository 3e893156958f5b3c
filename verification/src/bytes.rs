//! Little-endian readers over a byte slice, with an explicit cursor.
//!
//! Decoding machine code works through a byte cursor: each reader takes the
//! bytes and the current position, consumes a fixed number of bytes, and
//! hands back the value they spell in little-endian order.

use vstd::prelude::*;

verus! {

/// The number a byte sequence spells in little-endian order: the first byte
/// is the least significant.
pub open spec fn le_value(s: Seq<u8>) -> nat
    decreases s.len(),
{
    if s.len() == 0 {
        0
    } else {
        (s[0] as nat) + 256 * le_value(s.subrange(1, s.len() as int))
    }
}

/// Read the next `n` bytes and advance the cursor past them.
pub fn parse_arr(p: &[u8], pos: &mut usize, n: usize) -> (r: Vec<u8>)
    requires
        *old(pos) + n <= p@.len(),
    ensures
        r@ == p@.subrange(*old(pos) as int, *old(pos) + n),
        *final(pos) == *old(pos) + n,
{
    let plen = p.len();
    let start = *pos;
    let mut out: Vec<u8> = Vec::new();
    let mut k: usize = 0;
    while k < n
        invariant
            plen == p@.len(),
            start + n <= plen,
            k <= n,
            out@.len() == k,
            forall|m: int| 0 <= m < k ==> out@[m] == p@[start + m],
        decreases n - k,
    {
        out.push(p[start + k]);
        k = k + 1;
    }
    *pos = start + n;
    proof {
        assert(out@ =~= p@.subrange(start as int, start + n));
    }
    out
}

/// Read the next byte and advance the cursor past it.
pub fn parse_u8(p: &[u8], pos: &mut usize) -> (r: u8)
    requires
        *old(pos) < p@.len(),
    ensures
        r == p@[*old(pos) as int],
        r as nat == le_value(p@.subrange(*old(pos) as int, *old(pos) + 1)),
        *final(pos) == *old(pos) + 1,
{
    let v = parse_arr(p, pos, 1);
    proof {
        let s = p@.subrange(*old(pos) as int, *old(pos) + 1);
        assert(s.subrange(1, 1) =~= Seq::<u8>::empty());
        assert(le_value(Seq::<u8>::empty()) == 0);
        assert(le_value(s) == s[0]);
    }
    v[0]
}

/// Read the next four bytes as a little-endian 32-bit value and advance the
/// cursor past them.
pub fn parse_u32(p: &[u8], pos: &mut usize) -> (r: u32)
    requires
        *old(pos) + 4 <= p@.len(),
    ensures
        r as nat == le_value(p@.subrange(*old(pos) as int, *old(pos) + 4)),
        *final(pos) == *old(pos) + 4,
{
    let v = parse_arr(p, pos, 4);
    let b0 = v[0];
    let b1 = v[1];
    let b2 = v[2];
    let b3 = v[3];
    let r: u32 = (b0 as u32) + 0x100u32 * (b1 as u32) + 0x1_0000u32 * (b2 as u32) + 0x100_0000u32
        * (b3 as u32);
    proof {
        let s = p@.subrange(*old(pos) as int, *old(pos) + 4);
        let s1 = s.subrange(1, 4);
        let s2 = s1.subrange(1, 3);
        let s3 = s2.subrange(1, 2);
        assert(s1[0] == s[1] && s2[0] == s[2] && s3[0] == s[3]);
        assert(s3.subrange(1, 1) =~= Seq::<u8>::empty());
        assert(le_value(Seq::<u8>::empty()) == 0);
        assert(le_value(s3) == s3[0]);
        assert(s2.subrange(1, 2) =~= s3);
        assert(le_value(s2) == s2[0] + 256 * le_value(s3));
        assert(s1.subrange(1, 3) =~= s2);
        assert(le_value(s1) == s1[0] + 256 * le_value(s2));
        assert(s.subrange(1, 4) =~= s1);
        assert(le_value(s) == s[0] + 256 * le_value(s1));
    }
    r
}

/// Read the next eight bytes as a little-endian 64-bit value and advance
/// the cursor past them.
pub fn parse_u64(p: &[u8], pos: &mut usize) -> (r: u64)
    requires
        *old(pos) + 8 <= p@.len(),
    ensures
        r as nat == le_value(p@.subrange(*old(pos) as int, *old(pos) + 8)),
        *final(pos) == *old(pos) + 8,
{
    let lo = parse_u32(p, pos);
    let hi = parse_u32(p, pos);
    let r: u64 = (lo as u64) + 0x1_0000_0000u64 * (hi as u64);
    proof {
        let s = p@.subrange(*old(pos) as int, *old(pos) + 8);
        let sl = p@.subrange(*old(pos) as int, *old(pos) + 4);
        let sh = p@.subrange(*old(pos) + 4, *old(pos) + 8);
        lemma_le_value_split(s, 4);
        assert(s.subrange(0, 4) =~= sl);
        assert(s.subrange(4, s.len() as int) =~= sh);
        lemma_le_value_bound(sl);
        assert(pow256(1) == 256 * pow256(0));
        assert(pow256(2) == 256 * pow256(1));
        assert(pow256(3) == 256 * pow256(2));
        assert(pow256(4) == 256 * pow256(3));
        assert(pow256(4) == 0x1_0000_0000);
    }
    r
}

/// Splitting a byte sequence at position `k` splits its little-endian
/// value: the low part contributes directly and the high part is scaled by
/// `256^k`.
proof fn lemma_le_value_split(s: Seq<u8>, k: int)
    requires
        0 <= k <= s.len(),
    ensures
        le_value(s) == le_value(s.subrange(0, k)) + pow256(k) * le_value(
            s.subrange(k, s.len() as int),
        ),
    decreases k,
{
    if k == 0 {
        assert(s.subrange(0, 0) =~= Seq::<u8>::empty());
        assert(s.subrange(0, s.len() as int) =~= s);
        assert(le_value(Seq::<u8>::empty()) == 0);
        assert(pow256(0) == 1);
    } else {
        let tail = s.subrange(1, s.len() as int);
        lemma_le_value_split(tail, k - 1);
        assert(tail.subrange(0, k - 1) =~= s.subrange(1, k));
        assert(tail.subrange(k - 1, tail.len() as int) =~= s.subrange(k, s.len() as int));
        let low = s.subrange(0, k);
        assert(low.subrange(1, low.len() as int) =~= s.subrange(1, k));
        assert(le_value(low) == low[0] + 256 * le_value(s.subrange(1, k)));
        assert(le_value(s) == s[0] + 256 * le_value(tail));
        assert(le_value(tail) == le_value(s.subrange(1, k)) + pow256(k - 1) * le_value(
            s.subrange(k, s.len() as int),
        ));
        assert(256 * (le_value(s.subrange(1, k)) + pow256(k - 1) * le_value(
            s.subrange(k, s.len() as int),
        )) == 256 * le_value(s.subrange(1, k)) + 256 * (pow256(k - 1) * le_value(
            s.subrange(k, s.len() as int),
        ))) by (nonlinear_arith);
        assert(256 * (pow256(k - 1) * le_value(s.subrange(k, s.len() as int))) == (256 * pow256(
            k - 1,
        )) * le_value(s.subrange(k, s.len() as int))) by (nonlinear_arith);
        assert(pow256(k) == 256 * pow256(k - 1));
        assert((256 * pow256(k - 1)) * le_value(s.subrange(k, s.len() as int)) == pow256(k)
            * le_value(s.subrange(k, s.len() as int))) by (nonlinear_arith)
            requires
                pow256(k) == 256 * pow256(k - 1),
        ;
        assert(le_value(s) == le_value(low) + pow256(k) * le_value(s.subrange(k, s.len() as int)));
    }
}

/// `256^k`.
pub open spec fn pow256(k: int) -> nat
    decreases k,
{
    if k <= 0 {
        1
    } else {
        256 * pow256(k - 1)
    }
}

/// A byte sequence of length `n` spells a value below `256^n`.
proof fn lemma_le_value_bound(s: Seq<u8>)
    ensures
        le_value(s) < pow256(s.len() as int),
    decreases s.len(),
{
    if s.len() == 0 {
    } else {
        let tail = s.subrange(1, s.len() as int);
        lemma_le_value_bound(tail);
        assert(256 * le_value(tail) <= 256 * (pow256(tail.len() as int) - 1)) by (nonlinear_arith)
            requires
                le_value(tail) <= pow256(tail.len() as int) - 1,
        ;
    }
}

} // verus!
