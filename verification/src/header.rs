//! The database header: the first hundred bytes of the file.

use crate::error::DecodeError;
use crate::wire::{be_value, field, in_bounds, read_u16, read_u32};
use vstd::prelude::*;

verus! {

/// The global metadata at the start of the first page. All fields are
/// big-endian.
#[derive(Copy, Clone, Debug, PartialEq)]
pub struct Header {
    /// Page size in bytes. (1 means 65536)
    pub page_size: u16,
    /// File format write version
    pub write_format: u8,
    /// File format read version
    pub read_format: u8,
    /// Bytes of unused space at the end of each page
    pub reserved_bytes: u8,
    /// Maximum embedded payload fraction
    pub max_payload_fraction: u8,
    /// Minimum embedded payload fraction
    pub min_payload_fraction: u8,
    /// Min leaf payload fraction
    pub leaf_payload_fraction: u8,
    /// File change counter
    pub file_change_counter: u32,
    /// Size of the database in pages
    pub database_page_count: u32,
    /// First freelist page
    pub freelist_trunk_page: u32,
    /// Number of freelist pages in file
    pub freelist_page_count: u32,
    /// Schema cookie
    pub schema_cookie: u32,
    /// Schema format number
    pub schema_format: u32,
    /// Default page cache size
    pub default_page_cache: u32,
    /// Largest root b-tree page when in auto-vacuum
    pub autovacuum_top_root: u32,
    /// The database text encoding.
    pub text_encoding: u32,
    /// User version
    pub user_version: u32,
    /// True (non-zero) for incremental-vacuum mode
    pub incremental_vacuum: u32,
    /// The application id.
    pub application_id: u32,
    /// Reserved for expansion. Zero in a file that follows the format, which
    /// decoding does not insist on.
    pub reserved: [u8; 20],
    /// The version-valid-for number.
    pub version_valid_for: u32,
    /// The version number of the library that wrote the file.
    pub sqlite_version: u32,
}

/// What a [`Header`] holds.
pub struct HeaderView {
    pub page_size: u16,
    pub write_format: u8,
    pub read_format: u8,
    pub reserved_bytes: u8,
    pub max_payload_fraction: u8,
    pub min_payload_fraction: u8,
    pub leaf_payload_fraction: u8,
    pub file_change_counter: u32,
    pub database_page_count: u32,
    pub freelist_trunk_page: u32,
    pub freelist_page_count: u32,
    pub schema_cookie: u32,
    pub schema_format: u32,
    pub default_page_cache: u32,
    pub autovacuum_top_root: u32,
    pub text_encoding: u32,
    pub user_version: u32,
    pub incremental_vacuum: u32,
    pub application_id: u32,
    pub reserved: Seq<u8>,
    pub version_valid_for: u32,
    pub sqlite_version: u32,
}

impl View for Header {
    type V = HeaderView;

    open spec fn view(&self) -> HeaderView {
        HeaderView {
            page_size: self.page_size,
            write_format: self.write_format,
            read_format: self.read_format,
            reserved_bytes: self.reserved_bytes,
            max_payload_fraction: self.max_payload_fraction,
            min_payload_fraction: self.min_payload_fraction,
            leaf_payload_fraction: self.leaf_payload_fraction,
            file_change_counter: self.file_change_counter,
            database_page_count: self.database_page_count,
            freelist_trunk_page: self.freelist_trunk_page,
            freelist_page_count: self.freelist_page_count,
            schema_cookie: self.schema_cookie,
            schema_format: self.schema_format,
            default_page_cache: self.default_page_cache,
            autovacuum_top_root: self.autovacuum_top_root,
            text_encoding: self.text_encoding,
            user_version: self.user_version,
            incremental_vacuum: self.incremental_vacuum,
            application_id: self.application_id,
            reserved: self.reserved@,
            version_valid_for: self.version_valid_for,
            sqlite_version: self.sqlite_version,
        }
    }
}

/// The length of the header in bytes.
pub const HEADER_SIZE: usize = 100;

/// The signature that a database file starts with: `SQLite format 3` and a
/// zero byte.
pub open spec fn magic() -> Seq<u8> {
    seq![
        0x53u8, 0x51u8, 0x4cu8, 0x69u8, 0x74u8, 0x65u8, 0x20u8, 0x66u8,
        0x6fu8, 0x72u8, 0x6du8, 0x61u8, 0x74u8, 0x20u8, 0x33u8, 0x00u8,
    ]
}

/// Whether the sixteen bytes at `pos` are the signature.
pub open spec fn has_magic(bytes: Seq<u8>, pos: int) -> bool {
    in_bounds(bytes, pos, 16) && field(bytes, pos, 16) == magic()
}

/// The two-byte field at `pos`.
pub open spec fn u16_at(bytes: Seq<u8>, pos: int) -> u16 {
    be_value(field(bytes, pos, 2)) as u16
}

/// The four-byte field at `pos`.
pub open spec fn u32_at(bytes: Seq<u8>, pos: int) -> u32 {
    be_value(field(bytes, pos, 4)) as u32
}

/// The fields of the hundred bytes at `pos`, the signature taken as read.
pub open spec fn header_fields(bytes: Seq<u8>, pos: int) -> HeaderView {
    HeaderView {
        page_size: u16_at(bytes, pos + 16),
        write_format: bytes[pos + 18],
        read_format: bytes[pos + 19],
        reserved_bytes: bytes[pos + 20],
        max_payload_fraction: bytes[pos + 21],
        min_payload_fraction: bytes[pos + 22],
        leaf_payload_fraction: bytes[pos + 23],
        file_change_counter: u32_at(bytes, pos + 24),
        database_page_count: u32_at(bytes, pos + 28),
        freelist_trunk_page: u32_at(bytes, pos + 32),
        freelist_page_count: u32_at(bytes, pos + 36),
        schema_cookie: u32_at(bytes, pos + 40),
        schema_format: u32_at(bytes, pos + 44),
        default_page_cache: u32_at(bytes, pos + 48),
        autovacuum_top_root: u32_at(bytes, pos + 52),
        text_encoding: u32_at(bytes, pos + 56),
        user_version: u32_at(bytes, pos + 60),
        incremental_vacuum: u32_at(bytes, pos + 64),
        application_id: u32_at(bytes, pos + 68),
        reserved: field(bytes, pos + 72, 20),
        version_valid_for: u32_at(bytes, pos + 92),
        sqlite_version: u32_at(bytes, pos + 96),
    }
}

/// The header at `pos`.
///
/// The signature is looked at first: sixteen bytes that are not the
/// signature are a wrong magic, whatever follows them. An input that ends
/// within the signature or within the fields ends too early.
pub open spec fn spec_decode_header(bytes: Seq<u8>, pos: int) -> Result<HeaderView, DecodeError> {
    if !in_bounds(bytes, pos, 16) {
        Err(DecodeError::UnexpectedEof)
    } else if field(bytes, pos, 16) != magic() {
        Err(DecodeError::BadMagic)
    } else if !in_bounds(bytes, pos, 100) {
        Err(DecodeError::UnexpectedEof)
    } else {
        Ok(header_fields(bytes, pos))
    }
}

/// Bytes that do not start with the signature are no header: decoding fails,
/// with a wrong magic where sixteen bytes are there to look at.
pub proof fn lemma_header_needs_magic(bytes: Seq<u8>, pos: int)
    requires
        !has_magic(bytes, pos),
    ensures
        spec_decode_header(bytes, pos).is_err(),
        in_bounds(bytes, pos, 16) ==> spec_decode_header(bytes, pos) == Err::<HeaderView, _>(
            DecodeError::BadMagic,
        ),
        !in_bounds(bytes, pos, 16) ==> spec_decode_header(bytes, pos) == Err::<HeaderView, _>(
            DecodeError::UnexpectedEof,
        ),
{
}

/// The two-byte field at `pos`, which is there.
pub(crate) fn get_u16(bytes: &[u8], pos: usize) -> (r: u16)
    requires
        in_bounds(bytes@, pos as int, 2),
    ensures
        r == u16_at(bytes@, pos as int),
{
    read_u16(bytes, pos).unwrap()
}

/// The four-byte field at `pos`, which is there.
pub(crate) fn get_u32(bytes: &[u8], pos: usize) -> (r: u32)
    requires
        in_bounds(bytes@, pos as int, 4),
    ensures
        r == u32_at(bytes@, pos as int),
{
    read_u32(bytes, pos).unwrap()
}

/// Whether the sixteen bytes at `pos`, which are there, are the signature.
fn check_magic(bytes: &[u8], pos: usize) -> (r: bool)
    requires
        in_bounds(bytes@, pos as int, 16),
        bytes@.len() <= usize::MAX,
    ensures
        r == (field(bytes@, pos as int, 16) == magic()),
{
    let signature: [u8; 16] = [
        0x53, 0x51, 0x4c, 0x69, 0x74, 0x65, 0x20, 0x66,
        0x6f, 0x72, 0x6d, 0x61, 0x74, 0x20, 0x33, 0x00,
    ];
    assert(signature@ =~= magic());
    let mut i: usize = 0;
    while i < 16
        invariant
            i <= 16,
            in_bounds(bytes@, pos as int, 16),
            bytes@.len() <= usize::MAX,
            signature@ == magic(),
            forall|j: int| 0 <= j < i ==> bytes@[pos + j] == magic()[j],
        decreases 16 - i,
    {
        if bytes[pos + i] != signature[i] {
            assert(field(bytes@, pos as int, 16)[i as int] != magic()[i as int]);
            return false;
        }
        i += 1;
    }
    assert(field(bytes@, pos as int, 16) =~= magic());
    true
}

impl Header {
    /// The page size in bytes: the `page_size` field, where 1 stands for
    /// 65536.
    pub open spec fn spec_page_size_bytes(view: HeaderView) -> nat {
        if view.page_size == 1 {
            65536
        } else {
            view.page_size as nat
        }
    }

    /// The page size in bytes: the `page_size` field, where 1 stands for
    /// 65536.
    pub fn page_size_bytes(&self) -> (n: u32)
        ensures
            n == Header::spec_page_size_bytes(self@),
    {
        if self.page_size == 1 {
            65536
        } else {
            self.page_size as u32
        }
    }

    /// Reads the header at `pos`.
    ///
    /// Fails with `BadMagic` where sixteen bytes are there and are not the
    /// signature, and with `UnexpectedEof` where the input ends before the
    /// signature or the hundred bytes do.
    pub fn decode(bytes: &[u8], pos: usize) -> (r: Result<Header, DecodeError>)
        ensures
            match r {
                Ok(header) => spec_decode_header(bytes@, pos as int) == Ok::<_, DecodeError>(
                    header@,
                ),
                Err(e) => spec_decode_header(bytes@, pos as int) == Err::<HeaderView, _>(e),
            },
            r.is_ok() ==> pos + HEADER_SIZE <= bytes@.len(),
    {
        if pos > bytes.len() || bytes.len() - pos < 16 {
            return Err(DecodeError::UnexpectedEof);
        }
        if !check_magic(bytes, pos) {
            return Err(DecodeError::BadMagic);
        }
        if bytes.len() - pos < HEADER_SIZE {
            return Err(DecodeError::UnexpectedEof);
        }
        let mut reserved = [0u8; 20];
        let mut i: usize = 0;
        while i < 20
            invariant
                i <= 20,
                in_bounds(bytes@, pos as int, 100),
                bytes@.len() <= usize::MAX,
                forall|j: int| 0 <= j < i ==> reserved@[j] == bytes@[pos + 72 + j],
            decreases 20 - i,
        {
            reserved[i] = bytes[pos + 72 + i];
            i += 1;
        }
        assert(reserved@ =~= field(bytes@, pos + 72, 20));
        Ok(
            Header {
                page_size: get_u16(bytes, pos + 16),
                write_format: bytes[pos + 18],
                read_format: bytes[pos + 19],
                reserved_bytes: bytes[pos + 20],
                max_payload_fraction: bytes[pos + 21],
                min_payload_fraction: bytes[pos + 22],
                leaf_payload_fraction: bytes[pos + 23],
                file_change_counter: get_u32(bytes, pos + 24),
                database_page_count: get_u32(bytes, pos + 28),
                freelist_trunk_page: get_u32(bytes, pos + 32),
                freelist_page_count: get_u32(bytes, pos + 36),
                schema_cookie: get_u32(bytes, pos + 40),
                schema_format: get_u32(bytes, pos + 44),
                default_page_cache: get_u32(bytes, pos + 48),
                autovacuum_top_root: get_u32(bytes, pos + 52),
                text_encoding: get_u32(bytes, pos + 56),
                user_version: get_u32(bytes, pos + 60),
                incremental_vacuum: get_u32(bytes, pos + 64),
                application_id: get_u32(bytes, pos + 68),
                reserved,
                version_valid_for: get_u32(bytes, pos + 92),
                sqlite_version: get_u32(bytes, pos + 96),
            },
        )
    }
}

} // verus!
