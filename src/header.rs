//! The 100-byte file header at the start of page 1.
use vstd::prelude::*;
use crate::bytes::{be_at, pow256, read_be_unsigned};
use crate::error::DecodeError;

verus! {

/// The number of bytes of the file header that starts page 1.
pub const DATABASE_HEADER_SIZE: usize = 100;

/// The 16 bytes that every database file starts with: "SQLite format 3"
/// followed by a zero byte.
pub open spec fn header_signature() -> Seq<u8> {
    seq![
        0x53u8, 0x51, 0x4c, 0x69, 0x74, 0x65, 0x20, 0x66, 0x6f, 0x72, 0x6d, 0x61, 0x74, 0x20, 0x33,
        0x00,
    ]
}

/// A stored page size is 1 (for 65536) or a power of two from 512 to 32768.
pub open spec fn valid_page_size(p: u16) -> bool {
    p == 1 || p == 512 || p == 1024 || p == 2048 || p == 4096 || p == 8192 || p == 16384 || p
        == 32768
}

/// The decoded file header.
#[derive(Debug, Clone, Copy, PartialEq, Eq)]
pub struct DatabaseHeader {
    pub magic: [u8; 16],
    /// The page size as stored: 1 stands for 65536.
    pub page_size: u16,
    pub write_version: u8,
    pub read_version: u8,
    pub unused_space: u8,
    pub max_embed_frac: u8,
    pub min_embed_frac: u8,
    pub min_leaf_frac: u8,
    pub change_counter: u32,
    pub database_size: u32,
    pub freelist_trunk_page: u32,
    pub freelist_pages: u32,
    pub schema_cookie: u32,
    pub schema_format: u32,
    pub default_cache_size: u32,
    pub vacuum: u32,
    pub text_encoding: u32,
    pub user_version: u32,
    pub incremental_vacuum: u32,
    pub application_id: u32,
    pub reserved: [u8; 20],
    pub version_valid_for: u32,
    pub version_number: u32,
}

/// Whether every field of `h` holds what the header bytes `b` store at its offset.
pub open spec fn header_fields_match(h: DatabaseHeader, b: Seq<u8>) -> bool {
    &&& h.magic@ == b.subrange(0, 16)
    &&& h.page_size == be_at(b, 16, 2)
    &&& h.write_version == b[18]
    &&& h.read_version == b[19]
    &&& h.unused_space == b[20]
    &&& h.max_embed_frac == b[21]
    &&& h.min_embed_frac == b[22]
    &&& h.min_leaf_frac == b[23]
    &&& h.change_counter == be_at(b, 24, 4)
    &&& h.database_size == be_at(b, 28, 4)
    &&& h.freelist_trunk_page == be_at(b, 32, 4)
    &&& h.freelist_pages == be_at(b, 36, 4)
    &&& h.schema_cookie == be_at(b, 40, 4)
    &&& h.schema_format == be_at(b, 44, 4)
    &&& h.default_cache_size == be_at(b, 48, 4)
    &&& h.vacuum == be_at(b, 52, 4)
    &&& h.text_encoding == be_at(b, 56, 4)
    &&& h.user_version == be_at(b, 60, 4)
    &&& h.incremental_vacuum == be_at(b, 64, 4)
    &&& h.application_id == be_at(b, 68, 4)
    &&& h.reserved@ == b.subrange(72, 92)
    &&& h.version_valid_for == be_at(b, 92, 4)
    &&& h.version_number == be_at(b, 96, 4)
}

/// Whether `b` starts with a file header that decodes: at least 100 bytes,
/// the signature, and a valid page size.
pub open spec fn header_accepted(b: Seq<u8>) -> bool {
    &&& b.len() >= 100
    &&& b.subrange(0, 16) == header_signature()
    &&& valid_page_size(be_at(b, 16, 2) as u16)
}

impl DatabaseHeader {
    /// The page size in bytes.
    pub fn page_size_bytes(&self) -> (r: u32)
        ensures
            r == (if self.page_size == 1 {
                65536
            } else {
                self.page_size as u32
            }),
    {
        if self.page_size == 1 {
            65536
        } else {
            self.page_size as u32
        }
    }
}

fn read_u32(buf: &[u8], pos: usize) -> (r: u32)
    requires
        pos + 4 <= buf@.len(),
    ensures
        r == be_at(buf@, pos as int, 4),
{
    let v = read_be_unsigned(buf, pos, 4);
    proof {
        reveal_with_fuel(pow256, 5);
    }
    v as u32
}

fn copy_to_array<const N: usize>(buf: &[u8], pos: usize) -> (r: [u8; N])
    requires
        pos + N <= buf@.len(),
    ensures
        r@ == buf@.subrange(pos as int, pos + N),
{
    let len = buf.len();
    let mut out: [u8; N] = vstd::array::array_fill_for_copy_types(0u8);
    let mut i: usize = 0;
    while i < N
        invariant
            i <= N,
            pos + N <= buf@.len(),
            len == buf@.len(),
            out@.len() == N,
            forall|j: int| 0 <= j < i ==> out@[j] == buf@[pos + j],
        decreases N - i,
    {
        out[i] = buf[pos + i];
        i = i + 1;
    }
    assert(out@ =~= buf@.subrange(pos as int, pos + N));
    out
}

/// Decodes the file header from the first bytes of page 1.
///
/// Fails with `MalformedHeader` when `buf` holds fewer than 100 bytes, does not
/// start with the file signature, or stores a page size that is neither 1 nor
/// a power of two from 512 to 32768. All multi-byte fields are big-endian.
pub fn read_database_header(buf: &[u8]) -> (r: Result<DatabaseHeader, DecodeError>)
    ensures
        r is Ok <==> header_accepted(buf@),
        !header_accepted(buf@) ==> r == Err::<DatabaseHeader, DecodeError>(
            DecodeError::MalformedHeader,
        ),
        r matches Ok(h) ==> header_fields_match(h, buf@),
{
    if buf.len() < DATABASE_HEADER_SIZE {
        return Err(DecodeError::MalformedHeader);
    }
    let signature: [u8; 16] = [
        0x53u8, 0x51, 0x4c, 0x69, 0x74, 0x65, 0x20, 0x66, 0x6f, 0x72, 0x6d, 0x61, 0x74, 0x20, 0x33,
        0x00,
    ];
    let mut i: usize = 0;
    while i < 16
        invariant
            i <= 16,
            buf@.len() >= 100,
            signature@ == header_signature(),
            forall|j: int| 0 <= j < i ==> buf@[j] == header_signature()[j],
        decreases 16 - i,
    {
        if buf[i] != signature[i] {
            assert(buf@.subrange(0, 16)[i as int] != header_signature()[i as int]);
            return Err(DecodeError::MalformedHeader);
        }
        i = i + 1;
    }
    assert(buf@.subrange(0, 16) =~= header_signature());
    let page_size = read_be_unsigned(buf, 16, 2);
    proof {
        reveal_with_fuel(pow256, 3);
    }
    let page_size = page_size as u16;
    let valid = page_size == 1 || page_size == 512 || page_size == 1024 || page_size == 2048
        || page_size == 4096 || page_size == 8192 || page_size == 16384 || page_size == 32768;
    if !valid {
        return Err(DecodeError::MalformedHeader);
    }
    Ok(
        DatabaseHeader {
            magic: copy_to_array(buf, 0),
            page_size,
            write_version: buf[18],
            read_version: buf[19],
            unused_space: buf[20],
            max_embed_frac: buf[21],
            min_embed_frac: buf[22],
            min_leaf_frac: buf[23],
            change_counter: read_u32(buf, 24),
            database_size: read_u32(buf, 28),
            freelist_trunk_page: read_u32(buf, 32),
            freelist_pages: read_u32(buf, 36),
            schema_cookie: read_u32(buf, 40),
            schema_format: read_u32(buf, 44),
            default_cache_size: read_u32(buf, 48),
            vacuum: read_u32(buf, 52),
            text_encoding: read_u32(buf, 56),
            user_version: read_u32(buf, 60),
            incremental_vacuum: read_u32(buf, 64),
            application_id: read_u32(buf, 68),
            reserved: copy_to_array(buf, 72),
            version_valid_for: read_u32(buf, 92),
            version_number: read_u32(buf, 96),
        },
    )
}

} // verus!
