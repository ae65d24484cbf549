//! Fixed-width big-endian fields.
//!
//! The integer widths that `binrw` knows are read with it; the three-byte and
//! six-byte integers of the record format and the text of a string value are
//! handled here.

use binrw::io::Cursor;
use binrw::BinRead;
use vstd::prelude::*;
use vstd::utf8::{decode_utf8, valid_utf8};

verus! {

/// The unsigned number that a run of bytes spells, most significant first.
pub open spec fn be_value(s: Seq<u8>) -> nat
    decreases s.len(),
{
    if s.len() == 0 {
        0
    } else {
        be_value(s.drop_last()) * 256 + s.last() as nat
    }
}

/// The two's-complement reading of `u` in a type of `modulus` values.
pub open spec fn signed(u: nat, modulus: nat) -> int {
    if 2 * u >= modulus {
        u - modulus
    } else {
        u as int
    }
}

/// Whether `n` bytes are there from `pos` on.
pub open spec fn in_bounds(bytes: Seq<u8>, pos: int, n: int) -> bool {
    0 <= pos && 0 <= n && pos + n <= bytes.len()
}

/// The `n` bytes from `pos` on.
pub open spec fn field(bytes: Seq<u8>, pos: int, n: int) -> Seq<u8> {
    bytes.subrange(pos, pos + n)
}

/// `binrw`'s `u16::read_be` on a cursor over `bytes` that stands at `pos`:
/// the two bytes there as a big-endian number, and nothing where fewer than
/// two bytes are left.
#[verifier::external_body]
pub(crate) fn read_u16(bytes: &[u8], pos: usize) -> (r: Option<u16>)
    ensures
        r == (if in_bounds(bytes@, pos as int, 2) {
            Some(be_value(field(bytes@, pos as int, 2)) as u16)
        } else {
            None
        }),
{
    let mut reader = Cursor::new(bytes);
    reader.set_position(pos as u64);
    u16::read_be(&mut reader).ok()
}

/// `binrw`'s `u32::read_be` on a cursor over `bytes` that stands at `pos`:
/// the four bytes there as a big-endian number, and nothing where fewer than
/// four bytes are left.
#[verifier::external_body]
pub(crate) fn read_u32(bytes: &[u8], pos: usize) -> (r: Option<u32>)
    ensures
        r == (if in_bounds(bytes@, pos as int, 4) {
            Some(be_value(field(bytes@, pos as int, 4)) as u32)
        } else {
            None
        }),
{
    let mut reader = Cursor::new(bytes);
    reader.set_position(pos as u64);
    u32::read_be(&mut reader).ok()
}

/// `binrw`'s `u64::read_be` on a cursor over `bytes` that stands at `pos`:
/// the eight bytes there as a big-endian number, and nothing where fewer than
/// eight bytes are left.
#[verifier::external_body]
pub(crate) fn read_u64(bytes: &[u8], pos: usize) -> (r: Option<u64>)
    ensures
        r == (if in_bounds(bytes@, pos as int, 8) {
            Some(be_value(field(bytes@, pos as int, 8)) as u64)
        } else {
            None
        }),
{
    let mut reader = Cursor::new(bytes);
    reader.set_position(pos as u64);
    u64::read_be(&mut reader).ok()
}

/// `binrw`'s `i8::read_be` on a cursor over `bytes` that stands at `pos`:
/// the byte there in two's complement, and nothing where no byte is left.
#[verifier::external_body]
pub(crate) fn read_i8(bytes: &[u8], pos: usize) -> (r: Option<i8>)
    ensures
        r == (if in_bounds(bytes@, pos as int, 1) {
            Some(signed(be_value(field(bytes@, pos as int, 1)), 0x100) as i8)
        } else {
            None
        }),
{
    let mut reader = Cursor::new(bytes);
    reader.set_position(pos as u64);
    i8::read_be(&mut reader).ok()
}

/// `binrw`'s `i16::read_be` on a cursor over `bytes` that stands at `pos`:
/// the two bytes there as a big-endian number in two's complement, and
/// nothing where fewer than two bytes are left.
#[verifier::external_body]
pub(crate) fn read_i16(bytes: &[u8], pos: usize) -> (r: Option<i16>)
    ensures
        r == (if in_bounds(bytes@, pos as int, 2) {
            Some(signed(be_value(field(bytes@, pos as int, 2)), 0x1_0000) as i16)
        } else {
            None
        }),
{
    let mut reader = Cursor::new(bytes);
    reader.set_position(pos as u64);
    i16::read_be(&mut reader).ok()
}

/// `binrw`'s `i32::read_be` on a cursor over `bytes` that stands at `pos`:
/// the four bytes there as a big-endian number in two's complement, and
/// nothing where fewer than four bytes are left.
#[verifier::external_body]
pub(crate) fn read_i32(bytes: &[u8], pos: usize) -> (r: Option<i32>)
    ensures
        r == (if in_bounds(bytes@, pos as int, 4) {
            Some(signed(be_value(field(bytes@, pos as int, 4)), 0x1_0000_0000) as i32)
        } else {
            None
        }),
{
    let mut reader = Cursor::new(bytes);
    reader.set_position(pos as u64);
    i32::read_be(&mut reader).ok()
}

/// `binrw`'s `i64::read_be` on a cursor over `bytes` that stands at `pos`:
/// the eight bytes there as a big-endian number in two's complement, and
/// nothing where fewer than eight bytes are left.
#[verifier::external_body]
pub(crate) fn read_i64(bytes: &[u8], pos: usize) -> (r: Option<i64>)
    ensures
        r == (if in_bounds(bytes@, pos as int, 8) {
            Some(signed(be_value(field(bytes@, pos as int, 8)), 0x1_0000_0000_0000_0000) as i64)
        } else {
            None
        }),
{
    let mut reader = Cursor::new(bytes);
    reader.set_position(pos as u64);
    i64::read_be(&mut reader).ok()
}

/// `String::from_utf8`: the text that `bytes` encode, and nothing where they
/// are not UTF-8.
#[verifier::external_body]
pub(crate) fn string_from_utf8(bytes: Vec<u8>) -> (r: Option<String>)
    ensures
        r.is_some() == valid_utf8(bytes@),
        r matches Some(s) ==> s@ == decode_utf8(bytes@),
{
    String::from_utf8(bytes).ok()
}

/// A run of `n` bytes spells less than 256 to the `n`; stated for the widths
/// in use.
pub proof fn lemma_be_value_bound(s: Seq<u8>)
    ensures
        s.len() == 1 ==> be_value(s) < 0x100,
        s.len() == 2 ==> be_value(s) < 0x1_0000,
        s.len() == 3 ==> be_value(s) < 0x100_0000,
        s.len() == 4 ==> be_value(s) < 0x1_0000_0000,
        s.len() == 6 ==> be_value(s) < 0x1_0000_0000_0000,
        s.len() == 8 ==> be_value(s) < 0x1_0000_0000_0000_0000,
{
    reveal_with_fuel(be_value, 9);
}

/// Reads the three bytes at `pos` as an unsigned big-endian number.
pub fn read_u24_be(bytes: &[u8], pos: usize) -> (r: Option<u32>)
    ensures
        r == (if in_bounds(bytes@, pos as int, 3) {
            Some(be_value(field(bytes@, pos as int, 3)) as u32)
        } else {
            None
        }),
        r matches Some(v) ==> v < 0x100_0000,
{
    if pos > bytes.len() || bytes.len() - pos < 3 {
        return None;
    }
    let b0 = bytes[pos] as u32;
    let b1 = bytes[pos + 1] as u32;
    let b2 = bytes[pos + 2] as u32;
    proof {
        let s = field(bytes@, pos as int, 3);
        reveal_with_fuel(be_value, 4);
        assert(s.drop_last().drop_last().drop_last().len() == 0);
        assert(s.drop_last().drop_last().last() == bytes@[pos as int]);
        assert(s.drop_last().last() == bytes@[pos + 1]);
        assert(s.last() == bytes@[pos + 2]);
    }
    Some(b0 * 0x1_0000 + b1 * 0x100 + b2)
}

/// Reads the six bytes at `pos` as an unsigned big-endian number, which
/// always fits the signed result.
pub fn read_i48_be(bytes: &[u8], pos: usize) -> (r: Option<i64>)
    ensures
        r == (if in_bounds(bytes@, pos as int, 6) {
            Some(be_value(field(bytes@, pos as int, 6)) as i64)
        } else {
            None
        }),
        r matches Some(v) ==> 0 <= v < 0x1_0000_0000_0000,
{
    if pos > bytes.len() || bytes.len() - pos < 6 {
        return None;
    }
    let mut value: i64 = 0;
    let mut i: usize = 0;
    assert(field(bytes@, pos as int, 0) =~= Seq::<u8>::empty());
    while i < 6
        invariant
            i <= 6,
            pos + 6 <= bytes@.len() <= usize::MAX,
            value == be_value(field(bytes@, pos as int, i as int)),
            0 <= value,
            i <= 5 ==> value < 0x100_0000_0000,
            i == 6 ==> value < 0x1_0000_0000_0000,
        decreases 6 - i,
    {
        proof {
            assert(field(bytes@, pos as int, i + 1).drop_last() =~= field(
                bytes@,
                pos as int,
                i as int,
            ));
            lemma_be_value_prefix_bound(field(bytes@, pos as int, i as int));
        }
        value = value * 256 + bytes[pos + i] as i64;
        i += 1;
    }
    Some(value)
}

proof fn lemma_be_value_prefix_bound(s: Seq<u8>)
    ensures
        s.len() <= 4 ==> be_value(s) < 0x1_0000_0000,
        s.len() == 5 ==> be_value(s) < 0x100_0000_0000,
{
    reveal_with_fuel(be_value, 6);
}

} // verus!
