//! Byte-level framing of the container: magic bytes, little-endian integers
//! and length-prefixed records.
use vstd::prelude::*;

verus! {

/// The eight bytes every container starts with: "fgb", major version 3, "fgb", patch 0.
pub open spec fn magic_bytes() -> Seq<u8> {
    seq![0x66u8, 0x67u8, 0x62u8, 0x03u8, 0x66u8, 0x67u8, 0x62u8, 0x00u8]
}

/// The `n` low bytes of `x`, least significant first.
pub open spec fn le_bytes(x: nat, n: nat) -> Seq<u8>
    decreases n,
{
    if n == 0 {
        Seq::empty()
    } else {
        seq![(x % 256) as u8] + le_bytes(x / 256, (n - 1) as nat)
    }
}

/// The number whose little-endian encoding is `s`.
pub open spec fn le_value(s: Seq<u8>) -> nat
    decreases s.len(),
{
    if s.len() == 0 {
        0
    } else {
        s[0] as nat + 256 * le_value(s.skip(1))
    }
}

/// `bytes` is exactly `k` records, each a 4-byte little-endian length followed
/// by that many payload bytes.
pub open spec fn framed_records(data: Seq<u8>, k: nat) -> bool
    decreases k,
{
    if k == 0 {
        data.len() == 0
    } else {
        &&& data.len() >= 4
        &&& 4 + le_value(data.subrange(0, 4)) <= data.len()
        &&& framed_records(data.skip(4 + le_value(data.subrange(0, 4)) as int), (k - 1) as nat)
    }
}

/// The bytes of `parts`, one after another.
pub open spec fn concat(parts: Seq<Seq<u8>>) -> Seq<u8>
    decreases parts.len(),
{
    if parts.len() == 0 {
        Seq::empty()
    } else {
        concat(parts.drop_last()) + parts.last()
    }
}

/// A single record: its length prefix gives the number of bytes that follow.
pub open spec fn is_framed(rec: Seq<u8>) -> bool {
    rec.len() >= 4 && le_value(rec.subrange(0, 4)) == rec.len() - 4
}

/// One framed record followed by `k` more is `k + 1` records.
pub proof fn lemma_framed_cons(rec: Seq<u8>, rest: Seq<u8>, k: nat)
    requires
        is_framed(rec),
        framed_records(rest, k),
    ensures
        framed_records(rec + rest, k + 1),
{
    let all = rec + rest;
    assert(all.subrange(0, 4) =~= rec.subrange(0, 4));
    assert(all.skip(4 + le_value(all.subrange(0, 4)) as int) =~= rest);
}

/// Records laid end to end stay records: `a` of `i` and `b` of `j` make `i + j`.
pub proof fn lemma_framed_append(a: Seq<u8>, i: nat, b: Seq<u8>, j: nat)
    requires
        framed_records(a, i),
        framed_records(b, j),
    ensures
        framed_records(a + b, i + j),
    decreases i,
{
    if i == 0 {
        assert(a + b =~= b);
    } else {
        let n = le_value(a.subrange(0, 4));
        let tail = a.skip(4 + n as int);
        lemma_framed_append(tail, (i - 1) as nat, b, j);
        let all = a + b;
        assert(all.subrange(0, 4) =~= a.subrange(0, 4));
        assert(all.skip(4 + n as int) =~= tail + b);
    }
}

/// Appends the `n` low bytes of `x`, least significant first.
pub fn push_le(out: &mut Vec<u8>, x: u64, n: usize)
    requires
        n <= 8,
    ensures
        final(out)@ == old(out)@ + le_bytes(x as nat, n as nat),
{
    let mut rest: u64 = x;
    let mut i: usize = 0;
    while i < n
        invariant
            i <= n,
            old(out)@ + le_bytes(x as nat, n as nat) == out@ + le_bytes(rest as nat, (n - i) as nat),
        decreases n - i,
    {
        let ghost before = out@;
        out.push((rest % 256) as u8);
        assert(le_bytes(rest as nat, (n - i) as nat) =~= seq![(rest % 256) as u8] + le_bytes(
            (rest / 256) as nat,
            (n - i - 1) as nat,
        ));
        assert(before + le_bytes(rest as nat, (n - i) as nat) =~= out@ + le_bytes(
            (rest / 256) as nat,
            (n - i - 1) as nat,
        ));
        rest = rest / 256;
        i = i + 1;
    }
    assert(out@ + le_bytes(rest as nat, 0) =~= out@);
}

/// Appends every byte of `src`.
pub fn push_all(out: &mut Vec<u8>, src: &[u8])
    ensures
        final(out)@ == old(out)@ + src@,
{
    let mut i: usize = 0;
    while i < src.len()
        invariant
            i <= src@.len(),
            out@ == old(out)@ + src@.subrange(0, i as int),
        decreases src@.len() - i,
    {
        out.push(src[i]);
        i = i + 1;
        assert(out@ =~= old(out)@ + src@.subrange(0, i as int));
    }
    assert(src@.subrange(0, i as int) =~= src@);
}

/// The magic bytes as a vector.
pub fn magic() -> (r: Vec<u8>)
    ensures
        r@ == magic_bytes(),
{
    let r: Vec<u8> = vec![0x66u8, 0x67u8, 0x62u8, 0x03u8, 0x66u8, 0x67u8, 0x62u8, 0x00u8];
    assert(r@ =~= magic_bytes());
    r
}

} // verus!
