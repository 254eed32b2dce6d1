//! The variable-length integer codec.
//!
//! A varint is 1 to 9 bytes, least significant group first. Each of the first
//! eight bytes contributes its low 7 bits and continues the varint when its high
//! bit is set; a ninth byte contributes all 8 bits.
use vstd::prelude::*;
use crate::error::DecodeError;

verus! {

/// The bits that byte `i` of a varint contributes, before shifting.
pub open spec fn varint_digit(s: Seq<u8>, i: int) -> u64 {
    if i == 8 {
        s[8] as u64
    } else {
        (s[i] & 0x7f) as u64
    }
}

/// The value carried by the first `n` bytes of a varint.
pub open spec fn varint_value(s: Seq<u8>, n: nat) -> u64
    decreases n,
{
    if n == 0 {
        0
    } else {
        varint_value(s, (n - 1) as nat) | (varint_digit(s, n - 1) << ((7 * (n - 1)) as u64))
    }
}

/// The length of the varint that starts at `s[0]`, looking from byte `i` on,
/// or `None` when `s` ends before the varint does.
pub open spec fn varint_length_from(s: Seq<u8>, i: nat) -> Option<nat>
    decreases 8 - i,
{
    if i >= s.len() {
        None
    } else if i >= 8 || s[i as int] < 0x80 {
        Some(i + 1)
    } else {
        varint_length_from(s, i + 1)
    }
}

/// The varint at the start of `s`: its value and its length in bytes.
pub open spec fn decode_varint(s: Seq<u8>) -> Option<(u64, nat)> {
    match varint_length_from(s, 0) {
        Some(n) => Some((varint_value(s, n), n)),
        None => None,
    }
}

/// The fewest bytes that encode `v`.
pub open spec fn varint_size(v: u64) -> nat {
    if v < 0x80 {
        1
    } else if v < 0x4000 {
        2
    } else if v < 0x20_0000 {
        3
    } else if v < 0x1000_0000 {
        4
    } else if v < 0x8_0000_0000 {
        5
    } else if v < 0x400_0000_0000 {
        6
    } else if v < 0x2_0000_0000_0000 {
        7
    } else if v < 0x100_0000_0000_0000 {
        8
    } else {
        9
    }
}

/// Byte `i` of the shortest encoding of `v`.
pub open spec fn varint_byte(v: u64, i: nat) -> u8 {
    if i == 8 {
        (v >> 56u64) as u8
    } else if i + 1 < varint_size(v) {
        (((v >> ((7 * i) as u64)) & 0x7f) | 0x80) as u8
    } else {
        ((v >> ((7 * i) as u64)) & 0x7f) as u8
    }
}

/// The shortest encoding of `v`.
pub open spec fn varint_encoding(v: u64) -> Seq<u8> {
    Seq::new(varint_size(v), |i: int| varint_byte(v, i as nat))
}

/// `v` with every bit from position `sh` up cleared.
pub open spec fn low_bits(v: u64, sh: u64) -> u64 {
    v & (((1u64 << sh) - 1) as u64)
}

proof fn lemma_encoding_digit(v: u64, rest: Seq<u8>, i: nat)
    requires
        i < varint_size(v),
        i < 8,
    ensures
        varint_digit(varint_encoding(v) + rest, i as int) == (v >> ((7 * i) as u64)) & 0x7f,
{
    let s = varint_encoding(v) + rest;
    let x = v >> ((7 * i) as u64);
    assert(s[i as int] == varint_byte(v, i));
    assert((((x & 0x7f) | 0x80) as u8 & 0x7f) as u64 == x & 0x7f) by (bit_vector);
    assert(((x & 0x7f) as u8 & 0x7f) as u64 == x & 0x7f) by (bit_vector);
}

proof fn lemma_encoding_value(v: u64, rest: Seq<u8>, k: nat)
    requires
        k <= varint_size(v),
        k <= 8,
    ensures
        varint_value(varint_encoding(v) + rest, k) == low_bits(v, (7 * k) as u64),
    decreases k,
{
    let s = varint_encoding(v) + rest;
    if k == 0 {
        assert(v & (((1u64 << 0u64) - 1) as u64) == 0) by (bit_vector);
    } else {
        lemma_encoding_value(v, rest, (k - 1) as nat);
        lemma_encoding_digit(v, rest, (k - 1) as nat);
        let sh = (7 * (k - 1)) as u64;
        assert(sh <= 49);
        assert((v & (((1u64 << sh) - 1) as u64)) | (((v >> sh) & 0x7f) << sh) == v & (((1u64
            << (sh + 7) as u64) - 1) as u64)) by (bit_vector)
            requires
                sh <= 49,
        ;
        assert((7 * k) as u64 == (sh + 7) as u64);
    }
}

proof fn lemma_encoding_length(v: u64, rest: Seq<u8>, j: nat)
    requires
        j < varint_size(v),
    ensures
        varint_length_from(varint_encoding(v) + rest, j) == Some(varint_size(v)),
    decreases varint_size(v) - j,
{
    let s = varint_encoding(v) + rest;
    let n = varint_size(v);
    let x = v >> ((7 * j) as u64);
    assert(s[j as int] == varint_byte(v, j));
    if j + 1 < n {
        assert((((x & 0x7f) | 0x80) as u8) >= 0x80) by (bit_vector);
        lemma_encoding_length(v, rest, j + 1);
    } else if j < 8 {
        assert(((x & 0x7f) as u8) < 0x80) by (bit_vector);
    }
}

/// Decoding the shortest encoding of `v`, whatever bytes follow it, gives back
/// `v` and the length of that encoding: one byte below `0x80`, nine for the
/// values that need all 64 bits.
pub proof fn lemma_varint_round_trip(v: u64, rest: Seq<u8>)
    ensures
        decode_varint(varint_encoding(v) + rest) == Some((v, varint_size(v))),
{
    let s = varint_encoding(v) + rest;
    let n = varint_size(v);
    lemma_encoding_length(v, rest, 0);
    if n <= 8 {
        lemma_encoding_value(v, rest, n);
        if n == 1 {
            assert(v < 0x80 ==> low_bits(v, 7) == v) by (bit_vector);
        } else if n == 2 {
            assert(v < 0x4000 ==> low_bits(v, 14) == v) by (bit_vector);
        } else if n == 3 {
            assert(v < 0x20_0000 ==> low_bits(v, 21) == v) by (bit_vector);
        } else if n == 4 {
            assert(v < 0x1000_0000 ==> low_bits(v, 28) == v) by (bit_vector);
        } else if n == 5 {
            assert(v < 0x8_0000_0000 ==> low_bits(v, 35) == v) by (bit_vector);
        } else if n == 6 {
            assert(v < 0x400_0000_0000 ==> low_bits(v, 42) == v) by (bit_vector);
        } else if n == 7 {
            assert(v < 0x2_0000_0000_0000 ==> low_bits(v, 49) == v) by (bit_vector);
        } else {
            assert(v < 0x100_0000_0000_0000 ==> low_bits(v, 56) == v) by (bit_vector);
        }
    } else {
        lemma_encoding_value(v, rest, 8);
        assert(s[8] == varint_byte(v, 8));
        assert(low_bits(v, 56) | (((v >> 56u64) as u8 as u64) << 56u64) == v) by (bit_vector);
    }
}

proof fn lemma_varint_length_from_bounds(s: Seq<u8>, i: nat)
    requires
        i <= 8,
    ensures
        match varint_length_from(s, i) {
            Some(n) => i < n <= s.len() && n <= 9,
            None => true,
        },
    decreases 8 - i,
{
    if i < s.len() && i < 8 && s[i as int] >= 0x80 {
        lemma_varint_length_from_bounds(s, i + 1);
    }
}

/// A decoded varint is 1 to 9 bytes long and lies within the bytes given.
pub proof fn lemma_decode_varint_length(s: Seq<u8>)
    ensures
        decode_varint(s) matches Some((v, n)) ==> 1 <= n <= s.len() && n <= 9,
{
    lemma_varint_length_from_bounds(s, 0);
}

/// Decodes the varint that starts at `buf[pos]`.
pub fn read_varint_at(buf: &[u8], pos: usize) -> (r: Result<(u64, usize), DecodeError>)
    requires
        pos <= buf@.len(),
    ensures
        match decode_varint(buf@.subrange(pos as int, buf@.len() as int)) {
            Some((v, n)) => r == Ok::<(u64, usize), DecodeError>((v, n as usize)),
            None => r == Err::<(u64, usize), DecodeError>(DecodeError::OutOfBounds),
        },
        r matches Ok((v, n)) ==> 1 <= n <= 9 && pos + n <= buf@.len(),
{
    proof {
        lemma_decode_varint_length(buf@.subrange(pos as int, buf@.len() as int));
    }
    let ghost s = buf@.subrange(pos as int, buf@.len() as int);
    let mut value: u64 = 0;
    let mut i: usize = 0;
    loop
        invariant
            i <= 8,
            s == buf@.subrange(pos as int, buf@.len() as int),
            pos <= buf@.len(),
            value == varint_value(s, i as nat),
            varint_length_from(s, 0) == varint_length_from(s, i as nat),
        decreases 8 - i,
    {
        if i >= buf.len() - pos {
            return Err(DecodeError::OutOfBounds);
        }
        let byte = buf[pos + i];
        assert(byte == s[i as int]);
        if i == 8 {
            value = value | ((byte as u64) << 56u64);
            return Ok((value, 9));
        }
        value = value | (((byte & 0x7f) as u64) << ((7 * i) as u64));
        if byte < 0x80 {
            return Ok((value, i + 1));
        }
        i = i + 1;
    }
}

/// Decodes the varint at the start of `buf`, giving its value and length.
///
/// Fails with `OutOfBounds` when `buf` ends before the varint does; never
/// reads more than nine bytes.
pub fn read_varint(buf: &[u8]) -> (r: Result<(u64, usize), DecodeError>)
    ensures
        match decode_varint(buf@) {
            Some((v, n)) => r == Ok::<(u64, usize), DecodeError>((v, n as usize)),
            None => r == Err::<(u64, usize), DecodeError>(DecodeError::OutOfBounds),
        },
        r matches Ok((v, n)) ==> 1 <= n <= 9 && n <= buf@.len(),
{
    assert(buf@.subrange(0, buf@.len() as int) =~= buf@);
    read_varint_at(buf, 0)
}

} // verus!
