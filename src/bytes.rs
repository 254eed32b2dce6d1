//! Big-endian integers read from byte buffers.
use vstd::prelude::*;

verus! {

/// `256` to the power `n`.
pub open spec fn pow256(n: nat) -> nat
    decreases n,
{
    if n == 0 {
        1
    } else {
        256 * pow256((n - 1) as nat)
    }
}

/// The unsigned big-endian integer that the bytes of `b` spell.
pub open spec fn be_unsigned(b: Seq<u8>) -> nat
    decreases b.len(),
{
    if b.len() == 0 {
        0
    } else {
        be_unsigned(b.drop_last()) * 256 + b.last() as nat
    }
}

/// The unsigned big-endian integer in `b[pos..pos + n]`.
pub open spec fn be_at(b: Seq<u8>, pos: int, n: int) -> nat {
    be_unsigned(b.subrange(pos, pos + n))
}

/// The two's-complement big-endian integer that the bytes of `b` spell: the
/// first byte carries the sign, the others are unsigned.
pub open spec fn be_signed(b: Seq<u8>) -> int
    decreases b.len(),
{
    if b.len() == 0 {
        0
    } else if b.len() == 1 {
        if b[0] < 0x80 {
            b[0] as int
        } else {
            b[0] as int - 256
        }
    } else {
        be_signed(b.drop_last()) * 256 + b.last()
    }
}

/// The powers of 256 that an integer of at most eight bytes needs stay within
/// 64 bits.
pub proof fn lemma_pow256_bound(n: nat)
    requires
        n <= 7,
    ensures
        pow256(n) <= 0x100_0000_0000_0000,
        pow256(n + 1) == 256 * pow256(n),
{
    reveal_with_fuel(pow256, 9);
    if n == 0 {
    } else if n == 1 {
    } else if n == 2 {
    } else if n == 3 {
    } else if n == 4 {
    } else if n == 5 {
    } else if n == 6 {
    } else {
    }
}

/// Reads the unsigned big-endian integer in `buf[pos..pos + width]`.
pub fn read_be_unsigned(buf: &[u8], pos: usize, width: usize) -> (r: u64)
    requires
        width <= 8,
        pos + width <= buf@.len(),
    ensures
        r == be_unsigned(buf@.subrange(pos as int, pos + width)),
        r < pow256(width as nat),
{
    let len = buf.len();
    let mut acc: u64 = 0;
    let mut i: usize = 0;
    while i < width
        invariant
            i <= width,
            width <= 8,
            pos + width <= buf@.len(),
            buf@.len() == len,
            acc == be_unsigned(buf@.subrange(pos as int, pos + i)),
            acc < pow256(i as nat),
        decreases width - i,
    {
        proof {
            lemma_pow256_bound(i as nat);
        }
        let ghost prev = buf@.subrange(pos as int, pos + i);
        acc = acc * 256 + buf[pos + i] as u64;
        i = i + 1;
        assert(buf@.subrange(pos as int, pos + i).drop_last() =~= prev);
    }
    acc
}

/// Reads the two's-complement big-endian integer in `buf[pos..pos + width]`.
pub fn read_be_signed(buf: &[u8], pos: usize, width: usize) -> (r: i64)
    requires
        1 <= width <= 8,
        pos + width <= buf@.len(),
    ensures
        r == be_signed(buf@.subrange(pos as int, pos + width)),
{
    let len = buf.len();
    let first = buf[pos];
    let mut acc: i64 = if first < 0x80 {
        first as i64
    } else {
        first as i64 - 256
    };
    let mut i: usize = 1;
    assert(buf@.subrange(pos as int, pos + 1).len() == 1);
    while i < width
        invariant
            1 <= i <= width,
            width <= 8,
            pos + width <= buf@.len(),
            buf@.len() == len,
            acc == be_signed(buf@.subrange(pos as int, pos + i)),
            -128 * pow256((i - 1) as nat) <= acc < 128 * pow256((i - 1) as nat),
        decreases width - i,
    {
        proof {
            lemma_pow256_bound((i - 1) as nat);
            lemma_pow256_bound(i as nat);
        }
        let ghost prev = buf@.subrange(pos as int, pos + i);
        acc = acc * 256 + buf[pos + i] as i64;
        i = i + 1;
        assert(buf@.subrange(pos as int, pos + i).drop_last() =~= prev);
    }
    acc
}

/// A copy of `buf[pos..pos + n]`.
pub fn copy_bytes(buf: &[u8], pos: usize, n: usize) -> (r: Vec<u8>)
    requires
        pos + n <= buf@.len(),
    ensures
        r@ == buf@.subrange(pos as int, pos + n),
{
    let len = buf.len();
    let mut out: Vec<u8> = Vec::with_capacity(n);
    let mut i: usize = 0;
    while i < n
        invariant
            i <= n,
            pos + n <= buf@.len(),
            buf@.len() == len,
            out@ == buf@.subrange(pos as int, pos + i),
        decreases n - i,
    {
        out.push(buf[pos + i]);
        i = i + 1;
        assert(out@ =~= buf@.subrange(pos as int, pos + i));
    }
    out
}

} // verus!
