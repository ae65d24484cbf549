//! Serial types and the values they describe.
//!
//! A record names the storage of each column by a serial type code and keeps
//! the column's bytes, if it has any, in the record body.

use crate::error::DecodeError;
use crate::varint::{spec_decode, VarInt};
use crate::wire::{
    be_value, field, in_bounds, lemma_be_value_bound, read_i16, read_i32, read_i48_be, read_i64, read_i8, read_u24_be,
    read_u64, signed, string_from_utf8,
};
use vstd::prelude::*;
use vstd::slice::{slice_subrange, slice_to_vec};
use vstd::utf8::{decode_utf8, valid_utf8};

verus! {

/// How a column of a record is stored.
///
/// - codes 0 to 9 name the fixed kinds,
/// - 10 and 11 are reserved,
/// - an even code from 12 on is a blob,
/// - an odd code from 13 on is a string.
#[derive(Copy, Clone, Debug, PartialEq, Eq, Structural)]
pub enum SerialType {
    Null,
    I8,
    I16,
    I24,
    I32,
    I48,
    I64,
    Float,
    Zero,
    One,
    Reserved,
    /// A string of so many bytes.
    String(usize),
    /// A blob of so many bytes.
    Blob(usize),
}

/// The value of one column of one row.
#[derive(Debug, PartialEq)]
pub enum SerialValue {
    Null,
    /// An integer column of any width, widened to 64 bits.
    Number(i64),
    /// The 64 bits of an IEEE 754 double.
    Float(u64),
    Reserved,
    String(String),
    Blob(Vec<u8>),
}

/// What a [`SerialValue`] holds.
pub enum SerialValueView {
    Null,
    Number(i64),
    Float(u64),
    Reserved,
    String(Seq<char>),
    Blob(Seq<u8>),
}

impl View for SerialValue {
    type V = SerialValueView;

    open spec fn view(&self) -> SerialValueView {
        match self {
            SerialValue::Null => SerialValueView::Null,
            SerialValue::Number(n) => SerialValueView::Number(*n),
            SerialValue::Float(bits) => SerialValueView::Float(*bits),
            SerialValue::Reserved => SerialValueView::Reserved,
            SerialValue::String(s) => SerialValueView::String(s@),
            SerialValue::Blob(b) => SerialValueView::Blob(b@),
        }
    }
}

/// The serial type that a code names. Every code that fits `usize` names
/// one.
pub open spec fn spec_resolve(code: u64) -> Result<SerialType, DecodeError> {
    if code > usize::MAX {
        Err(DecodeError::SerialTypeOutOfRange)
    } else if code == 0 {
        Ok(SerialType::Null)
    } else if code == 1 {
        Ok(SerialType::I8)
    } else if code == 2 {
        Ok(SerialType::I16)
    } else if code == 3 {
        Ok(SerialType::I24)
    } else if code == 4 {
        Ok(SerialType::I32)
    } else if code == 5 {
        Ok(SerialType::I48)
    } else if code == 6 {
        Ok(SerialType::I64)
    } else if code == 7 {
        Ok(SerialType::Float)
    } else if code == 8 {
        Ok(SerialType::Zero)
    } else if code == 9 {
        Ok(SerialType::One)
    } else if code == 10 || code == 11 {
        Ok(SerialType::Reserved)
    } else if code % 2 == 0 {
        Ok(SerialType::Blob(((code - 12) / 2) as usize))
    } else {
        Ok(SerialType::String(((code - 13) / 2) as usize))
    }
}

/// The serial type whose code is the varint at `pos`, with the varint's
/// width.
pub open spec fn spec_decode_type(bytes: Seq<u8>, pos: int) -> Result<(SerialType, int), DecodeError> {
    match spec_decode(bytes, pos) {
        None => Err(DecodeError::InvalidVarint),
        Some(code) => match spec_resolve(code.value) {
            Err(e) => Err(e),
            Ok(ty) => Ok((ty, code.width as int)),
        },
    }
}

/// The `width` bytes of a value at `pos`. A value without bytes has none
/// wherever it stands, even behind the end of the input.
pub open spec fn spec_raw(bytes: Seq<u8>, pos: int, width: int) -> Seq<u8> {
    if width == 0 {
        Seq::empty()
    } else {
        field(bytes, pos, width)
    }
}

/// The value of a column of type `ty` whose bytes start at `pos`.
///
/// A value that takes no bytes is read wherever `pos` is; any other fails
/// where the input ends before the value does. The three-byte and six-byte
/// integers are read as unsigned numbers, the other integers in two's
/// complement, and a float keeps its 64 bits.
pub open spec fn spec_decode_value(bytes: Seq<u8>, pos: int, ty: SerialType) -> Result<
    SerialValueView,
    DecodeError,
> {
    let width = ty.spec_width() as int;
    let raw = spec_raw(bytes, pos, width);
    if width > 0 && !in_bounds(bytes, pos, width) {
        Err(DecodeError::UnexpectedEof)
    } else {
        match ty {
            SerialType::Null => Ok(SerialValueView::Null),
            SerialType::I8 => Ok(SerialValueView::Number(signed(be_value(raw), 0x100) as i64)),
            SerialType::I16 => Ok(SerialValueView::Number(signed(be_value(raw), 0x1_0000) as i64)),
            SerialType::I24 => Ok(SerialValueView::Number(be_value(raw) as i64)),
            SerialType::I32 => Ok(
                SerialValueView::Number(signed(be_value(raw), 0x1_0000_0000) as i64),
            ),
            SerialType::I48 => Ok(SerialValueView::Number(be_value(raw) as i64)),
            SerialType::I64 => Ok(
                SerialValueView::Number(signed(be_value(raw), 0x1_0000_0000_0000_0000) as i64),
            ),
            SerialType::Float => Ok(SerialValueView::Float(be_value(raw) as u64)),
            SerialType::Zero => Ok(SerialValueView::Number(0)),
            SerialType::One => Ok(SerialValueView::Number(1)),
            SerialType::Reserved => Ok(SerialValueView::Reserved),
            SerialType::String(_) => if valid_utf8(raw) {
                Ok(SerialValueView::String(decode_utf8(raw)))
            } else {
                Err(DecodeError::InvalidString)
            },
            SerialType::Blob(_) => Ok(SerialValueView::Blob(raw)),
        }
    }
}

impl SerialType {
    /// The number of bytes that a value of this type takes in a record body.
    pub open spec fn spec_width(self) -> nat {
        match self {
            SerialType::Null => 0,
            SerialType::I8 => 1,
            SerialType::I16 => 2,
            SerialType::I24 => 3,
            SerialType::I32 => 4,
            SerialType::I48 => 6,
            SerialType::I64 => 8,
            SerialType::Float => 8,
            SerialType::Zero => 0,
            SerialType::One => 0,
            SerialType::Reserved => 0,
            SerialType::String(n) => n as nat,
            SerialType::Blob(n) => n as nat,
        }
    }

    /// The number of bytes that a value of this type takes in a record body.
    pub fn width(self) -> (n: usize)
        ensures
            n == self.spec_width(),
    {
        match self {
            SerialType::Null => 0,
            SerialType::I8 => 1,
            SerialType::I16 => 2,
            SerialType::I24 => 3,
            SerialType::I32 => 4,
            SerialType::I48 => 6,
            SerialType::I64 => 8,
            SerialType::Float => 8,
            SerialType::Zero => 0,
            SerialType::One => 0,
            SerialType::Reserved => 0,
            SerialType::String(n) => n,
            SerialType::Blob(n) => n,
        }
    }

    /// The serial type that `code` names. Fails only for a code that does
    /// not fit `usize`.
    pub fn resolve(code: u64) -> (r: Result<SerialType, DecodeError>)
        ensures
            r == spec_resolve(code),
    {
        if code > usize::MAX as u64 {
            return Err(DecodeError::SerialTypeOutOfRange);
        }
        match code {
            0 => Ok(SerialType::Null),
            1 => Ok(SerialType::I8),
            2 => Ok(SerialType::I16),
            3 => Ok(SerialType::I24),
            4 => Ok(SerialType::I32),
            5 => Ok(SerialType::I48),
            6 => Ok(SerialType::I64),
            7 => Ok(SerialType::Float),
            8 => Ok(SerialType::Zero),
            9 => Ok(SerialType::One),
            10 | 11 => Ok(SerialType::Reserved),
            // Even: blob of (N-12)/2 bytes
            m if m % 2 == 0 => Ok(SerialType::Blob(((m - 12) / 2) as usize)),
            // Odd: string of (N-13)/2 bytes
            m => Ok(SerialType::String(((m - 13) / 2) as usize)),
        }
    }

    /// Reads the varint at `pos` and resolves it; the second component is
    /// the offset behind the varint.
    pub fn decode(bytes: &[u8], pos: usize) -> (r: Result<(SerialType, usize), DecodeError>)
        ensures
            match r {
                Ok((ty, next)) => spec_decode_type(bytes@, pos as int) matches Ok((t, width))
                    && t == ty && next == pos + width,
                Err(e) => spec_decode_type(bytes@, pos as int) == Err::<(SerialType, int), _>(e),
            },
    {
        let code = match VarInt::decode(bytes, pos) {
            Ok(code) => code,
            Err(e) => {
                return Err(e);
            },
        };
        match SerialType::resolve(code.value) {
            Ok(ty) => Ok((ty, pos + code.width as usize)),
            Err(e) => Err(e),
        }
    }
}

impl SerialValue {
    /// Copies the `width` bytes of a value at `pos`.
    fn raw(bytes: &[u8], pos: usize, width: usize) -> (r: Vec<u8>)
        requires
            width > 0 ==> in_bounds(bytes@, pos as int, width as int),
            bytes@.len() <= usize::MAX,
        ensures
            r@ == spec_raw(bytes@, pos as int, width as int),
    {
        if width == 0 {
            Vec::new()
        } else {
            slice_to_vec(slice_subrange(bytes, pos, pos + width))
        }
    }

    /// Reads the value of a column of type `ty` whose bytes start at `pos`;
    /// the second component is the offset behind them, `pos` plus the width
    /// of `ty`.
    ///
    /// Fails where the input ends inside the value, and for a string whose
    /// bytes are not UTF-8.
    pub fn decode(bytes: &[u8], pos: usize, ty: SerialType) -> (r: Result<
        (SerialValue, usize),
        DecodeError,
    >)
        ensures
            match r {
                Ok((value, next)) => spec_decode_value(bytes@, pos as int, ty) == Ok::<_, DecodeError>(value@)
                    && next == pos + ty.spec_width(),
                Err(e) => spec_decode_value(bytes@, pos as int, ty) == Err::<SerialValueView, _>(e),
            },
    {
        let width = ty.width();
        let len = bytes.len();
        if width > 0 && (pos > len || len - pos < width) {
            return Err(DecodeError::UnexpectedEof);
        }
        let next = pos + width;
        proof {
            lemma_be_value_bound(field(bytes@, pos as int, width as int));
        }
        let value = match ty {
            SerialType::Null => SerialValue::Null,
            SerialType::I8 => SerialValue::Number(read_i8(bytes, pos).unwrap() as i64),
            SerialType::I16 => SerialValue::Number(read_i16(bytes, pos).unwrap() as i64),
            SerialType::I24 => SerialValue::Number(read_u24_be(bytes, pos).unwrap() as i64),
            SerialType::I32 => SerialValue::Number(read_i32(bytes, pos).unwrap() as i64),
            SerialType::I48 => SerialValue::Number(read_i48_be(bytes, pos).unwrap()),
            SerialType::I64 => SerialValue::Number(read_i64(bytes, pos).unwrap()),
            SerialType::Float => SerialValue::Float(read_u64(bytes, pos).unwrap()),
            SerialType::Zero => SerialValue::Number(0),
            SerialType::One => SerialValue::Number(1),
            SerialType::Reserved => SerialValue::Reserved,
            SerialType::String(_) => {
                match string_from_utf8(SerialValue::raw(bytes, pos, width)) {
                    Some(s) => SerialValue::String(s),
                    None => {
                        return Err(DecodeError::InvalidString);
                    },
                }
            },
            SerialType::Blob(_) => SerialValue::Blob(SerialValue::raw(bytes, pos, width)),
        };
        Ok((value, next))
    }
}

impl From<&str> for SerialValue {
    /// The string value with the text of `value`.
    fn from(value: &str) -> (r: SerialValue)
        ensures
            r@ == SerialValueView::String(value@),
    {
        SerialValue::String(value.to_owned())
    }
}

impl vstd::std_specs::convert::FromSpecImpl<&str> for SerialValue {
    /// A string is known by its text alone, which the contract of `from`
    /// states.
    open spec fn obeys_from_spec() -> bool {
        false
    }

    open spec fn from_spec(value: &str) -> SerialValue {
        SerialValue::Null
    }
}

impl From<i64> for SerialValue {
    /// The number `value`.
    fn from(value: i64) -> (r: SerialValue) {
        SerialValue::Number(value)
    }
}

impl vstd::std_specs::convert::FromSpecImpl<i64> for SerialValue {
    open spec fn obeys_from_spec() -> bool {
        true
    }

    open spec fn from_spec(value: i64) -> SerialValue {
        SerialValue::Number(value)
    }
}

impl From<Vec<u8>> for SerialValue {
    /// The blob of the bytes `value`.
    fn from(value: Vec<u8>) -> (r: SerialValue) {
        SerialValue::Blob(value)
    }
}

impl vstd::std_specs::convert::FromSpecImpl<Vec<u8>> for SerialValue {
    open spec fn obeys_from_spec() -> bool {
        true
    }

    open spec fn from_spec(value: Vec<u8>) -> SerialValue {
        SerialValue::Blob(value)
    }
}

impl From<()> for SerialValue {
    /// The null value.
    fn from(value: ()) -> (r: SerialValue) {
        SerialValue::Null
    }
}

impl vstd::std_specs::convert::FromSpecImpl<()> for SerialValue {
    open spec fn obeys_from_spec() -> bool {
        true
    }

    open spec fn from_spec(value: ()) -> SerialValue {
        SerialValue::Null
    }
}

} // verus!
