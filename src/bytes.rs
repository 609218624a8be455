//! Little-endian integers inside byte sequences.
use vstd::prelude::*;

verus! {

/// The four little-endian bytes of `x`.
pub open spec fn le32(x: u32) -> Seq<u8> {
    seq![x as u8, (x >> 8) as u8, (x >> 16) as u8, (x >> 24) as u8]
}

/// The eight little-endian bytes of `x`.
pub open spec fn le64(x: u64) -> Seq<u8> {
    seq![
        x as u8,
        (x >> 8) as u8,
        (x >> 16) as u8,
        (x >> 24) as u8,
        (x >> 32) as u8,
        (x >> 40) as u8,
        (x >> 48) as u8,
        (x >> 56) as u8,
    ]
}

pub open spec fn join32(b0: u8, b1: u8, b2: u8, b3: u8) -> u32 {
    (b0 as u32) | ((b1 as u32) << 8) | ((b2 as u32) << 16) | ((b3 as u32) << 24)
}

pub open spec fn join64(lo: u32, hi: u32) -> u64 {
    (lo as u64) | ((hi as u64) << 32)
}

/// The little-endian `u32` that starts at `p`.
pub open spec fn read_le32(b: Seq<u8>, p: int) -> u32 {
    join32(b[p], b[p + 1], b[p + 2], b[p + 3])
}

/// The little-endian `u64` that starts at `p`.
pub open spec fn read_le64(b: Seq<u8>, p: int) -> u64 {
    join64(read_le32(b, p), read_le32(b, p + 4))
}

pub proof fn lemma_join32(x: u32)
    ensures
        join32(x as u8, (x >> 8) as u8, (x >> 16) as u8, (x >> 24) as u8) == x,
{
    assert(((x as u8) as u32) | ((((x >> 8) as u8) as u32) << 8) | ((((x >> 16) as u8) as u32)
        << 16) | ((((x >> 24) as u8) as u32) << 24) == x) by (bit_vector);
}

pub proof fn lemma_split64(x: u64)
    ensures
        (x as u32) as u8 == x as u8,
        ((x as u32) >> 8) as u8 == (x >> 8) as u8,
        ((x as u32) >> 16) as u8 == (x >> 16) as u8,
        ((x as u32) >> 24) as u8 == (x >> 24) as u8,
        ((x >> 32) as u32) as u8 == (x >> 32) as u8,
        (((x >> 32) as u32) >> 8) as u8 == (x >> 40) as u8,
        (((x >> 32) as u32) >> 16) as u8 == (x >> 48) as u8,
        (((x >> 32) as u32) >> 24) as u8 == (x >> 56) as u8,
        join64(x as u32, (x >> 32) as u32) == x,
{
    assert((x as u32) as u8 == x as u8) by (bit_vector);
    assert(((x as u32) >> 8) as u8 == (x >> 8) as u8) by (bit_vector);
    assert(((x as u32) >> 16) as u8 == (x >> 16) as u8) by (bit_vector);
    assert(((x as u32) >> 24) as u8 == (x >> 24) as u8) by (bit_vector);
    assert(((x >> 32) as u32) as u8 == (x >> 32) as u8) by (bit_vector);
    assert((((x >> 32) as u32) >> 8) as u8 == (x >> 40) as u8) by (bit_vector);
    assert((((x >> 32) as u32) >> 16) as u8 == (x >> 48) as u8) by (bit_vector);
    assert((((x >> 32) as u32) >> 24) as u8 == (x >> 56) as u8) by (bit_vector);
    assert(((x as u32) as u64) | (((x >> 32) as u32 as u64) << 32) == x) by (bit_vector);
}

/// Reading back the bytes of `le32(x)` gives `x`.
pub proof fn lemma_read_le32(b: Seq<u8>, p: int, x: u32)
    requires
        0 <= p,
        p + 4 <= b.len(),
        b.subrange(p, p + 4) == le32(x),
    ensures
        read_le32(b, p) == x,
{
    assert(b[p] == b.subrange(p, p + 4)[0]);
    assert(b[p + 1] == b.subrange(p, p + 4)[1]);
    assert(b[p + 2] == b.subrange(p, p + 4)[2]);
    assert(b[p + 3] == b.subrange(p, p + 4)[3]);
    lemma_join32(x);
}

/// Reading back the bytes of `le64(x)` gives `x`.
pub proof fn lemma_read_le64(b: Seq<u8>, p: int, x: u64)
    requires
        0 <= p,
        p + 8 <= b.len(),
        b.subrange(p, p + 8) == le64(x),
    ensures
        read_le64(b, p) == x,
{
    lemma_split64(x);
    assert(b.subrange(p, p + 4) =~= le32(x as u32));
    assert(b.subrange(p + 4, p + 8) =~= le32((x >> 32) as u32));
    lemma_read_le32(b, p, x as u32);
    lemma_read_le32(b, p + 4, (x >> 32) as u32);
}

/// Appends the little-endian bytes of `x`.
pub fn push_le32(out: &mut Vec<u8>, x: u32)
    ensures
        final(out)@ == old(out)@ + le32(x),
{
    out.push(x as u8);
    out.push((x >> 8) as u8);
    out.push((x >> 16) as u8);
    out.push((x >> 24) as u8);
    assert(final(out)@ =~= old(out)@ + le32(x));
}

/// Appends the little-endian bytes of `x`.
pub fn push_le64(out: &mut Vec<u8>, x: u64)
    ensures
        final(out)@ == old(out)@ + le64(x),
{
    proof {
        lemma_split64(x);
    }
    push_le32(out, x as u32);
    push_le32(out, (x >> 32) as u32);
    assert(final(out)@ =~= old(out)@ + le64(x));
}

/// Reads the little-endian `u32` that starts at `p`.
pub fn get_le32(b: &[u8], p: usize) -> (r: u32)
    requires
        p + 4 <= b@.len(),
    ensures
        r == read_le32(b@, p as int),
{
    (b[p] as u32) | ((b[p + 1] as u32) << 8) | ((b[p + 2] as u32) << 16) | ((b[p + 3] as u32) << 24)
}

/// Reads the little-endian `u64` that starts at `p`.
pub fn get_le64(b: &[u8], p: usize) -> (r: u64)
    requires
        p + 8 <= b@.len(),
    ensures
        r == read_le64(b@, p as int),
{
    let lo = get_le32(b, p);
    assert(b@.len() == b.len());
    let hi = get_le32(b, p + 4);
    (lo as u64) | ((hi as u64) << 32)
}

/// Appends all of `b`.
pub fn push_all(out: &mut Vec<u8>, b: &[u8])
    ensures
        final(out)@ == old(out)@ + b@,
{
    let mut i: usize = 0;
    while i < b.len()
        invariant
            0 <= i <= b@.len(),
            out@ == old(out)@ + b@.subrange(0, i as int),
        decreases b@.len() - i,
    {
        out.push(b[i]);
        i = i + 1;
        assert(out@ =~= old(out)@ + b@.subrange(0, i as int));
    }
    assert(b@.subrange(0, b@.len() as int) =~= b@);
}

/// A copy of `b[i..j]`.
pub fn copy_range(b: &[u8], i: usize, j: usize) -> (r: Vec<u8>)
    requires
        i <= j <= b@.len(),
    ensures
        r@ == b@.subrange(i as int, j as int),
{
    let mut out: Vec<u8> = Vec::new();
    let mut k: usize = i;
    while k < j
        invariant
            i <= k <= j,
            j <= b@.len(),
            out@ == b@.subrange(i as int, k as int),
        decreases j - k,
    {
        out.push(b[k]);
        k = k + 1;
        assert(out@ =~= b@.subrange(i as int, k as int));
    }
    out
}

} // verus!
