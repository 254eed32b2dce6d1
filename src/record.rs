//! Serial types, column values and records.
use vstd::prelude::*;
use vstd::utf8::{decode_utf8, valid_utf8};
use crate::bytes::{be_signed, be_unsigned, copy_bytes, read_be_signed, read_be_unsigned};
use crate::error::DecodeError;
use crate::varint::{decode_varint, lemma_decode_varint_length, read_varint, read_varint_at};

verus! {

/// How one column of a record is stored.
#[derive(Debug, Clone, Copy, PartialEq, Eq, Structural)]
pub enum SerialType {
    Null,
    UInt8,
    BEInt16,
    BEInt24,
    BEInt32,
    BEInt48,
    BEInt64,
    BEFloat64,
    ConstInt0,
    ConstInt1,
    Blob(usize),
    String(usize),
}

/// The serial type that `code` denotes: codes 0 to 9 are fixed, an even code
/// from 12 on is a blob of `(code - 12) / 2` bytes and an odd code from 13 on
/// a string of `(code - 13) / 2` bytes. Codes 10 and 11 are reserved.
pub open spec fn serial_type_of(code: u64) -> Result<SerialType, DecodeError> {
    if code == 0 {
        Ok(SerialType::Null)
    } else if code == 1 {
        Ok(SerialType::UInt8)
    } else if code == 2 {
        Ok(SerialType::BEInt16)
    } else if code == 3 {
        Ok(SerialType::BEInt24)
    } else if code == 4 {
        Ok(SerialType::BEInt32)
    } else if code == 5 {
        Ok(SerialType::BEInt48)
    } else if code == 6 {
        Ok(SerialType::BEInt64)
    } else if code == 7 {
        Ok(SerialType::BEFloat64)
    } else if code == 8 {
        Ok(SerialType::ConstInt0)
    } else if code == 9 {
        Ok(SerialType::ConstInt1)
    } else if code < 12 || (code - 12) / 2 > usize::MAX {
        Err(DecodeError::InvalidSerialType(code))
    } else if code % 2 == 0 {
        Ok(SerialType::Blob(((code - 12) / 2) as usize))
    } else {
        Ok(SerialType::String(((code - 13) / 2) as usize))
    }
}

/// The number of bytes that a value of serial type `t` occupies.
pub open spec fn serial_width(t: SerialType) -> nat {
    match t {
        SerialType::Null => 0,
        SerialType::UInt8 => 1,
        SerialType::BEInt16 => 2,
        SerialType::BEInt24 => 3,
        SerialType::BEInt32 => 4,
        SerialType::BEInt48 => 6,
        SerialType::BEInt64 => 8,
        SerialType::BEFloat64 => 8,
        SerialType::ConstInt0 => 0,
        SerialType::ConstInt1 => 0,
        SerialType::Blob(n) => n as nat,
        SerialType::String(n) => n as nat,
    }
}

impl SerialType {
    /// The serial type that `value` denotes, or `InvalidSerialType`.
    pub fn try_from(value: u64) -> (r: Result<SerialType, DecodeError>)
        ensures
            r == serial_type_of(value),
            value == 10 || value == 11 ==> r == Err::<SerialType, DecodeError>(
                DecodeError::InvalidSerialType(value),
            ),
            value >= 12 && value % 2 == 0 && (value - 12) / 2 <= usize::MAX ==> r == Ok::<
                SerialType,
                DecodeError,
            >(SerialType::Blob(((value - 12) / 2) as usize)),
            value >= 13 && value % 2 == 1 && (value - 13) / 2 <= usize::MAX ==> r == Ok::<
                SerialType,
                DecodeError,
            >(SerialType::String(((value - 13) / 2) as usize)),
    {
        match value {
            0 => Ok(SerialType::Null),
            1 => Ok(SerialType::UInt8),
            2 => Ok(SerialType::BEInt16),
            3 => Ok(SerialType::BEInt24),
            4 => Ok(SerialType::BEInt32),
            5 => Ok(SerialType::BEInt48),
            6 => Ok(SerialType::BEInt64),
            7 => Ok(SerialType::BEFloat64),
            8 => Ok(SerialType::ConstInt0),
            9 => Ok(SerialType::ConstInt1),
            _ => {
                if value < 12 || (value - 12) / 2 > usize::MAX as u64 {
                    Err(DecodeError::InvalidSerialType(value))
                } else if value % 2 == 0 {
                    Ok(SerialType::Blob(((value - 12) / 2) as usize))
                } else {
                    Ok(SerialType::String(((value - 13) / 2) as usize))
                }
            },
        }
    }

    /// The number of bytes that a value of this type occupies.
    pub fn width(&self) -> (r: usize)
        ensures
            r == serial_width(*self),
    {
        match self {
            SerialType::Null => 0,
            SerialType::UInt8 => 1,
            SerialType::BEInt16 => 2,
            SerialType::BEInt24 => 3,
            SerialType::BEInt32 => 4,
            SerialType::BEInt48 => 6,
            SerialType::BEInt64 => 8,
            SerialType::BEFloat64 => 8,
            SerialType::ConstInt0 => 0,
            SerialType::ConstInt1 => 0,
            SerialType::Blob(n) => *n,
            SerialType::String(n) => *n,
        }
    }
}

/// One column value of a record.
#[derive(Debug, PartialEq)]
pub enum Value {
    Null,
    Integer(i64),
    /// A float, as the bits of its IEEE 754 binary64 representation.
    Float(u64),
    Text(String),
    Blob(Vec<u8>),
}

/// What a `Value` holds, in mathematical terms.
pub enum ValueView {
    Null,
    Integer(int),
    Float(u64),
    Text(Seq<char>),
    Blob(Seq<u8>),
}

impl View for Value {
    type V = ValueView;

    open spec fn view(&self) -> ValueView {
        match self {
            Value::Null => ValueView::Null,
            Value::Integer(i) => ValueView::Integer(*i as int),
            Value::Float(bits) => ValueView::Float(*bits),
            Value::Text(s) => ValueView::Text(s@),
            Value::Blob(b) => ValueView::Blob(b@),
        }
    }
}

/// The value that the bytes `b` (exactly as many as the type's width) hold
/// under serial type `t`.
pub open spec fn value_of(t: SerialType, b: Seq<u8>) -> Result<ValueView, DecodeError> {
    match t {
        SerialType::Null => Ok(ValueView::Null),
        SerialType::ConstInt0 => Ok(ValueView::Integer(0)),
        SerialType::ConstInt1 => Ok(ValueView::Integer(1)),
        SerialType::BEFloat64 => Ok(ValueView::Float(be_unsigned(b) as u64)),
        SerialType::Blob(_) => Ok(ValueView::Blob(b)),
        SerialType::String(_) => if valid_utf8(b) {
            Ok(ValueView::Text(decode_utf8(b)))
        } else {
            Err(DecodeError::InvalidEncoding)
        },
        _ => Ok(ValueView::Integer(be_signed(b))),
    }
}

/// The value of serial type `t` stored at `buf[pos]`, with the number of bytes
/// it takes; `OutOfBounds` when `buf` ends first.
pub open spec fn value_at(t: SerialType, buf: Seq<u8>, pos: int) -> Result<
    (ValueView, nat),
    DecodeError,
> {
    if buf.len() - pos < serial_width(t) {
        Err(DecodeError::OutOfBounds)
    } else {
        match value_of(t, buf.subrange(pos, pos + serial_width(t))) {
            Ok(v) => Ok((v, serial_width(t))),
            Err(e) => Err(e),
        }
    }
}

/// Decoding a value takes exactly its type's width in bytes and reads nothing
/// past it: whatever bytes follow, the outcome is the same.
pub proof fn lemma_value_width(t: SerialType, b: Seq<u8>, extra: Seq<u8>)
    requires
        b.len() >= serial_width(t),
    ensures
        value_at(t, b + extra, 0) == value_at(t, b, 0),
        value_at(t, b, 0) matches Ok((_, n)) ==> n == serial_width(t),
{
    assert((b + extra).subrange(0, serial_width(t) as int) =~= b.subrange(0, serial_width(t) as int));
}

/// Relies on `String::from_utf8`: it accepts exactly the valid UTF-8 byte
/// sequences and decodes them to their characters.
#[verifier::external_body]
fn string_from_utf8(bytes: Vec<u8>) -> (r: Option<String>)
    ensures
        r is Some <==> valid_utf8(bytes@),
        r matches Some(s) ==> s@ == decode_utf8(bytes@),
{
    String::from_utf8(bytes).ok()
}

/// Decodes the value of serial type `t` stored at `buf[pos]`.
pub fn read_value_at(buf: &[u8], pos: usize, t: SerialType) -> (r: Result<(Value, usize), DecodeError>)
    requires
        pos <= buf@.len(),
    ensures
        match value_at(t, buf@, pos as int) {
            Ok((v, n)) => r matches Ok((val, m)) && val@ == v && m == n,
            Err(e) => r == Err::<(Value, usize), DecodeError>(e),
        },
        r matches Ok((_, m)) ==> pos + m <= buf@.len(),
{
    let w = t.width();
    if w > buf.len() - pos {
        return Err(DecodeError::OutOfBounds);
    }
    let value = match t {
        SerialType::Null => Value::Null,
        SerialType::ConstInt0 => Value::Integer(0),
        SerialType::ConstInt1 => Value::Integer(1),
        SerialType::BEFloat64 => Value::Float(read_be_unsigned(buf, pos, 8)),
        SerialType::Blob(n) => Value::Blob(copy_bytes(buf, pos, n)),
        SerialType::String(n) => {
            let bytes = copy_bytes(buf, pos, n);
            match string_from_utf8(bytes) {
                Some(s) => Value::Text(s),
                None => {
                    return Err(DecodeError::InvalidEncoding);
                },
            }
        },
        _ => Value::Integer(read_be_signed(buf, pos, w)),
    };
    Ok((value, w))
}

/// Decodes the value of serial type `serial_type` at the start of `buf`,
/// giving the value and the number of bytes it took.
///
/// The bytes taken are exactly the type's width; integers are sign-extended,
/// text must be valid UTF-8 (else `InvalidEncoding`), and a `buf` shorter than
/// the width gives `OutOfBounds`.
pub fn read_value(buf: &[u8], serial_type: SerialType) -> (r: Result<(Value, usize), DecodeError>)
    ensures
        match value_at(serial_type, buf@, 0) {
            Ok((v, n)) => r matches Ok((val, m)) && val@ == v && m == n,
            Err(e) => r == Err::<(Value, usize), DecodeError>(e),
        },
        r matches Ok((_, m)) ==> m == serial_width(serial_type),
{
    read_value_at(buf, 0, serial_type)
}

/// `xs` followed by the sequence in `r`, or the error in `r`.
pub open spec fn prefixed<A>(xs: Seq<A>, r: Result<Seq<A>, DecodeError>) -> Result<Seq<A>, DecodeError> {
    match r {
        Ok(ys) => Ok(xs + ys),
        Err(e) => Err(e),
    }
}

/// The serial types whose codes fill the `remaining` header bytes of `p` that
/// start at `pos`.
pub open spec fn header_serial_types(p: Seq<u8>, pos: nat, remaining: nat) -> Result<
    Seq<SerialType>,
    DecodeError,
>
    decreases remaining,
    via header_serial_types_decreases
{
    if remaining == 0 {
        Ok(Seq::empty())
    } else if pos > p.len() {
        Err(DecodeError::OutOfBounds)
    } else {
        match decode_varint(p.subrange(pos as int, p.len() as int)) {
            None => Err(DecodeError::OutOfBounds),
            Some((code, n)) => match serial_type_of(code) {
                Err(e) => Err(e),
                Ok(t) => if n > remaining {
                    Err(DecodeError::MalformedHeader)
                } else {
                    prefixed(seq![t], header_serial_types(p, pos + n, (remaining - n) as nat))
                },
            },
        }
    }
}

#[via_fn]
proof fn header_serial_types_decreases(p: Seq<u8>, pos: nat, remaining: nat) {
    if remaining != 0 && pos <= p.len() {
        lemma_decode_varint_length(p.subrange(pos as int, p.len() as int));
    }
}

/// The values of serial types `ts`, stored one after another in `p` from `pos` on.
pub open spec fn record_values(p: Seq<u8>, pos: nat, ts: Seq<SerialType>) -> Result<
    Seq<ValueView>,
    DecodeError,
>
    decreases ts.len(),
{
    if ts.len() == 0 {
        Ok(Seq::empty())
    } else {
        match value_at(ts[0], p, pos as int) {
            Err(e) => Err(e),
            Ok((v, n)) => prefixed(seq![v], record_values(p, pos + n, ts.drop_first())),
        }
    }
}

/// The header of the record in `p`: its length in bytes, counting the varint
/// that gives it, and the serial types it lists.
pub open spec fn record_header(p: Seq<u8>) -> Result<(nat, Seq<SerialType>), DecodeError> {
    match decode_varint(p) {
        None => Err(DecodeError::OutOfBounds),
        Some((h, n)) => if h < n {
            Err(DecodeError::MalformedHeader)
        } else {
            match header_serial_types(p, n, (h - n) as nat) {
                Ok(ts) => Ok((h as nat, ts)),
                Err(e) => Err(e),
            }
        },
    }
}

/// The column values of the record in `p`.
pub open spec fn record_of(p: Seq<u8>) -> Result<Seq<ValueView>, DecodeError> {
    match record_header(p) {
        Ok((h, ts)) => record_values(p, h, ts),
        Err(e) => Err(e),
    }
}

/// The number of bytes that values of the serial types `ts` take together.
pub open spec fn total_width(ts: Seq<SerialType>) -> nat
    decreases ts.len(),
{
    if ts.len() == 0 {
        0
    } else {
        serial_width(ts[0]) + total_width(ts.drop_first())
    }
}

proof fn lemma_record_values_fit(p: Seq<u8>, pos: nat, ts: Seq<SerialType>)
    requires
        record_values(p, pos, ts) is Ok,
    ensures
        record_values(p, pos, ts) matches Ok(vs) ==> vs.len() == ts.len(),
        ts.len() > 0 ==> pos + total_width(ts) <= p.len(),
    decreases ts.len(),
{
    if ts.len() > 0 {
        lemma_record_values_fit(p, pos + serial_width(ts[0]), ts.drop_first());
    }
}

/// A record that decodes holds one value per serial type of its header, and
/// its header and values together fit in the payload.
pub proof fn lemma_record_fits(p: Seq<u8>)
    requires
        record_of(p) is Ok,
    ensures
        record_header(p) is Ok,
        record_header(p)->Ok_0.0 + total_width(record_header(p)->Ok_0.1) <= p.len(),
        record_of(p)->Ok_0.len() == record_header(p)->Ok_0.1.len(),
{
    let (h, ts) = record_header(p)->Ok_0;
    lemma_record_values_fit(p, h, ts);
    if ts.len() == 0 {
        let (hv, n) = decode_varint(p)->Some_0;
        lemma_decode_varint_length(p);
        lemma_header_within(p, n, (hv - n) as nat);
    }
}

proof fn lemma_header_within(p: Seq<u8>, pos: nat, remaining: nat)
    requires
        header_serial_types(p, pos, remaining) is Ok,
        pos <= p.len(),
    ensures
        pos + remaining <= p.len(),
    decreases remaining,
{
    if remaining > 0 {
        let s = p.subrange(pos as int, p.len() as int);
        lemma_decode_varint_length(s);
        let n = decode_varint(s)->Some_0.1;
        lemma_header_within(p, pos + n, (remaining - n) as nat);
    }
}

/// A record: the column values of one row, in stored order.
#[derive(Debug, PartialEq)]
pub struct Record {
    pub values: Vec<Value>,
}

impl View for Record {
    type V = Seq<ValueView>;

    open spec fn view(&self) -> Seq<ValueView> {
        self.values@.map_values(|v: Value| v@)
    }
}

/// Decodes the record stored in `payload`: a varint header length (counting
/// itself), the serial-type codes that fill the rest of the header, then one
/// value per serial type.
///
/// Fails with `MalformedHeader` when the header length is shorter than its own
/// varint or a code runs past the header's end, with `InvalidSerialType` on a
/// reserved code, and with `OutOfBounds` when the payload ends early.
pub fn read_record(payload: &[u8]) -> (r: Result<Record, DecodeError>)
    ensures
        match record_of(payload@) {
            Ok(vs) => r matches Ok(rec) && rec@ == vs,
            Err(e) => r == Err::<Record, DecodeError>(e),
        },
{
    let ghost p = payload@;
    let (header_size, n0) = match read_varint(payload) {
        Ok(x) => x,
        Err(e) => {
            return Err(e);
        },
    };
    proof {
        lemma_decode_varint_length(p);
    }
    let len = payload.len();
    if header_size < n0 as u64 {
        return Err(DecodeError::MalformedHeader);
    }
    let mut remaining: u64 = header_size - n0 as u64;
    let mut pos: usize = n0;
    let mut types: Vec<SerialType> = Vec::new();
    while remaining > 0
        invariant
            p == payload@,
            len == payload@.len(),
            pos <= payload@.len(),
            pos + remaining == header_size,
            decode_varint(p) == Some((header_size, n0 as nat)),
            n0 <= header_size,
            header_serial_types(p, n0 as nat, (header_size - n0) as nat) == prefixed(
                types@,
                header_serial_types(p, pos as nat, remaining as nat),
            ),
        decreases remaining,
    {
        proof {
            lemma_decode_varint_length(p.subrange(pos as int, p.len() as int));
        }
        let (code, nr) = match read_varint_at(payload, pos) {
            Ok(x) => x,
            Err(e) => {
                return Err(e);
            },
        };
        let t = match SerialType::try_from(code) {
            Ok(t) => t,
            Err(e) => {
                assert(header_serial_types(p, pos as nat, remaining as nat) == Err::<
                    Seq<SerialType>,
                    DecodeError,
                >(e));
                return Err(e);
            },
        };
        if nr as u64 > remaining {
            return Err(DecodeError::MalformedHeader);
        }
        let ghost before = types@;
        types.push(t);
        proof {
            let rest = header_serial_types(p, (pos + nr) as nat, (remaining - nr) as nat);
            match rest {
                Ok(ys) => {
                    assert(before + (seq![t] + ys) =~= types@ + ys);
                },
                Err(_) => {},
            }
        }
        pos = pos + nr;
        remaining = remaining - nr as u64;
    }
    assert(types@ + Seq::<SerialType>::empty() =~= types@);
    let ghost ts = types@;
    assert(record_header(p) == Ok::<(nat, Seq<SerialType>), DecodeError>((header_size as nat, ts)));
    let mut values: Vec<Value> = Vec::new();
    let mut j: usize = 0;
    assert(ts.skip(0) =~= ts);
    assert(values@.map_values(|v: Value| v@) =~= Seq::<ValueView>::empty());
    while j < types.len()
        invariant
            p == payload@,
            len == payload@.len(),
            pos <= payload@.len(),
            ts == types@,
            record_header(p) == Ok::<(nat, Seq<SerialType>), DecodeError>((header_size as nat, ts)),
            j <= ts.len(),
            record_values(p, header_size as nat, ts) == prefixed(
                values@.map_values(|v: Value| v@),
                record_values(p, pos as nat, ts.skip(j as int)),
            ),
        decreases ts.len() - j,
    {
        let ghost tail = ts.skip(j as int);
        assert(tail[0] == ts[j as int]);
        assert(tail.drop_first() =~= ts.skip(j + 1));
        let (value, used) = match read_value_at(payload, pos, types[j]) {
            Ok(x) => x,
            Err(e) => {
                assert(record_values(p, pos as nat, tail) == Err::<Seq<ValueView>, DecodeError>(e));
                return Err(e);
            },
        };
        let ghost before = values@.map_values(|v: Value| v@);
        let ghost vv = value@;
        values.push(value);
        proof {
            assert(values@.map_values(|v: Value| v@) =~= before.push(vv));
            let rest = record_values(p, (pos + used) as nat, ts.skip(j + 1));
            match rest {
                Ok(ys) => {
                    assert(before + (seq![vv] + ys) =~= before.push(vv) + ys);
                },
                Err(_) => {},
            }
        }
        pos = pos + used;
        j = j + 1;
    }
    assert(ts.skip(j as int).len() == 0);
    let rec = Record { values };
    assert(rec@ + Seq::<ValueView>::empty() =~= rec@);
    Ok(rec)
}

} // verus!
