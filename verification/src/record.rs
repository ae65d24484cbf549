//! Records: one row of a table.
//!
//! A record starts with a header, a varint that gives the header's length in
//! bytes (itself included) and then one serial type code for each column.
//! The column values follow the header in the same order.

use crate::error::DecodeError;
use crate::serial::{
    spec_decode_value, spec_resolve, SerialType, SerialValue, SerialValueView,
};
use crate::varint::{lemma_decode_width, spec_decode, VarInt};
use crate::wire::{field, in_bounds};
use vstd::prelude::*;
use vstd::slice::slice_subrange;

verus! {

/// The contents of a row along with their types.
#[derive(Debug, PartialEq)]
pub struct Record {
    /// The length of the header in bytes, this varint included.
    pub header_size: VarInt,
    /// The serial type of each column.
    pub columns: Vec<SerialType>,
    /// The value of each column, in the order of `columns`.
    pub payload: Vec<SerialValue>,
}

/// What a [`Record`] holds.
pub struct RecordView {
    pub header_size: VarInt,
    pub columns: Seq<SerialType>,
    pub payload: Seq<SerialValueView>,
}

/// What each of a run of values holds.
pub open spec fn value_views(values: Seq<SerialValue>) -> Seq<SerialValueView> {
    Seq::new(values.len(), |i: int| values[i]@)
}

impl View for Record {
    type V = RecordView;

    open spec fn view(&self) -> RecordView {
        RecordView {
            header_size: self.header_size,
            columns: self.columns@,
            payload: value_views(self.payload@),
        }
    }
}

/// `front` put before the items of a successful `rest`.
pub open spec fn prepend<T, E>(front: Seq<T>, rest: Result<Seq<T>, E>) -> Result<Seq<T>, E> {
    match rest {
        Ok(items) => Ok(front + items),
        Err(e) => Err(e),
    }
}

/// `front` put before the items of a successful `rest`, whose end offset
/// stays.
pub open spec fn prepend_to<T, E>(front: Seq<T>, rest: Result<(Seq<T>, int), E>) -> Result<
    (Seq<T>, int),
    E,
> {
    match rest {
        Ok((items, end)) => Ok((front + items, end)),
        Err(e) => Err(e),
    }
}

/// The serial types whose codes fill `region` from `pos` on. A code that the
/// end of the region cuts short ends the list without a failure.
pub open spec fn spec_columns(region: Seq<u8>, pos: int) -> Result<Seq<SerialType>, DecodeError>
    decreases region.len() - pos,
    via spec_columns_decreases
{
    match spec_decode(region, pos) {
        None => Ok(Seq::empty()),
        Some(code) => match spec_resolve(code.value) {
            Err(e) => Err(e),
            Ok(ty) => prepend(seq![ty], spec_columns(region, pos + code.width)),
        },
    }
}

#[via_fn]
proof fn spec_columns_decreases(region: Seq<u8>, pos: int) {
    lemma_decode_width(region, pos);
}

/// The values of `columns`, read one after the other from `pos` on, and the
/// offset behind the last of them.
pub open spec fn spec_payload(bytes: Seq<u8>, pos: int, columns: Seq<SerialType>) -> Result<
    (Seq<SerialValueView>, int),
    DecodeError,
>
    decreases columns.len(),
{
    if columns.len() == 0 {
        Ok((Seq::empty(), pos))
    } else {
        match spec_decode_value(bytes, pos, columns[0]) {
            Err(e) => Err(e),
            Ok(value) => prepend_to(
                seq![value],
                spec_payload(bytes, pos + columns[0].spec_width(), columns.skip(1)),
            ),
        }
    }
}

/// The bytes that the values of `columns` take together.
pub open spec fn total_width(columns: Seq<SerialType>) -> nat
    decreases columns.len(),
{
    if columns.len() == 0 {
        0
    } else {
        columns[0].spec_width() + total_width(columns.skip(1))
    }
}

/// The record at `pos` and the offset behind its last value.
///
/// The header is the `header_size.value` bytes from `pos` on; it fails as an
/// input that ends too early where it is shorter than its own size varint or
/// longer than what is left of the input.
pub open spec fn spec_decode_record(bytes: Seq<u8>, pos: int) -> Result<
    (RecordView, int),
    DecodeError,
> {
    match spec_decode(bytes, pos) {
        None => Err(DecodeError::InvalidVarint),
        Some(header_size) => {
            let start = pos + header_size.width;
            let len = header_size.value - header_size.width;
            if !in_bounds(bytes, start, len) {
                Err(DecodeError::UnexpectedEof)
            } else {
                match spec_columns(field(bytes, start, len), 0) {
                    Err(e) => Err(e),
                    Ok(columns) => match spec_payload(bytes, start + len, columns) {
                        Err(e) => Err(e),
                        Ok((payload, end)) => Ok(
                            (RecordView { header_size, columns, payload }, end),
                        ),
                    },
                }
            }
        },
    }
}

/// Every column of a decoded payload has its value, and the payload ends
/// where the widths of the columns add up to.
pub proof fn lemma_payload_pairs(bytes: Seq<u8>, pos: int, columns: Seq<SerialType>)
    ensures
        spec_payload(bytes, pos, columns) matches Ok((payload, end)) ==> payload.len()
            == columns.len() && end == pos + total_width(columns) && (forall|i: int|
            0 <= i < columns.len() ==> spec_decode_value(
                bytes,
                pos + total_width(columns.take(i)),
                columns[i],
            ) == Ok::<_, DecodeError>(#[trigger] payload[i])),
    decreases columns.len(),
{
    if columns.len() > 0 {
        let tail = columns.skip(1);
        let next = pos + columns[0].spec_width();
        lemma_payload_pairs(bytes, next, tail);
        if let Ok((payload, end)) = spec_payload(bytes, pos, columns) {
            let rest = spec_payload(bytes, next, tail).unwrap().0;
            assert(payload =~= seq![payload[0]] + rest);
            assert forall|i: int| 0 <= i < columns.len() implies spec_decode_value(
                bytes,
                pos + total_width(columns.take(i)),
                columns[i],
            ) == Ok::<_, DecodeError>(#[trigger] payload[i]) by {
                if i == 0 {
                    assert(columns.take(0).len() == 0);
                } else {
                    assert(columns.take(i).skip(1) =~= tail.take(i - 1));
                    assert(columns.take(i)[0] == columns[0]);
                    assert(payload[i] == rest[i - 1]);
                }
            }
        }
    }
}

/// A decoded record has one value for each column.
pub proof fn lemma_record_pairs(bytes: Seq<u8>, pos: int)
    ensures
        spec_decode_record(bytes, pos) matches Ok((record, end)) ==> record.columns.len()
            == record.payload.len() && end == pos + record.header_size.value + total_width(
            record.columns,
        ),
{
    if let Some(header_size) = spec_decode(bytes, pos) {
        let start = pos + header_size.width;
        let len = header_size.value - header_size.width;
        if in_bounds(bytes, start, len) {
            if let Ok(columns) = spec_columns(field(bytes, start, len), 0) {
                lemma_payload_pairs(bytes, start + len, columns);
            }
        }
    }
}

impl Record {
    /// Whether each column has its value.
    pub open spec fn wf(&self) -> bool {
        self.columns@.len() == self.payload@.len()
    }

    /// Reads the serial types of a record header from `region`, the bytes
    /// between the size varint and the end of the header.
    pub fn decode_columns(region: &[u8]) -> (r: Result<Vec<SerialType>, DecodeError>)
        ensures
            match r {
                Ok(columns) => spec_columns(region@, 0) == Ok::<_, DecodeError>(columns@),
                Err(e) => spec_columns(region@, 0) == Err::<Seq<SerialType>, _>(e),
            },
    {
        let mut columns: Vec<SerialType> = Vec::new();
        let mut pos: usize = 0;
        loop
            invariant
                pos <= region@.len(),
                spec_columns(region@, 0) == prepend(columns@, spec_columns(region@, pos as int)),
            decreases region@.len() - pos,
        {
            let code = match VarInt::decode(region, pos) {
                Ok(code) => code,
                Err(_) => {
                    assert(columns@ + Seq::<SerialType>::empty() =~= columns@);
                    return Ok(columns);
                },
            };
            let ty = match SerialType::resolve(code.value) {
                Ok(ty) => ty,
                Err(e) => {
                    return Err(e);
                },
            };
            proof {
                let rest = spec_columns(region@, pos + code.width);
                if let Ok(items) = rest {
                    assert(columns@ + (seq![ty] + items) =~= columns@.push(ty) + items);
                }
            }
            columns.push(ty);
            pos = pos + code.width as usize;
        }
    }

    /// Reads the values of `columns` one after the other from `pos` on; the
    /// second component is the offset behind the last of them.
    pub fn decode_payload(bytes: &[u8], pos: usize, columns: &Vec<SerialType>) -> (r: Result<
        (Vec<SerialValue>, usize),
        DecodeError,
    >)
        ensures
            match r {
                Ok((payload, end)) => spec_payload(bytes@, pos as int, columns@) == Ok::<
                    _,
                    DecodeError,
                >((value_views(payload@), end as int)) && payload@.len() == columns@.len(),
                Err(e) => spec_payload(bytes@, pos as int, columns@) == Err::<
                    (Seq<SerialValueView>, int),
                    _,
                >(e),
            },
    {
        let mut payload: Vec<SerialValue> = Vec::with_capacity(columns.len());
        let mut at = pos;
        let mut i: usize = 0;
        assert(columns@.skip(0) =~= columns@);
        while i < columns.len()
            invariant
                i <= columns@.len(),
                payload@.len() == i,
                spec_payload(bytes@, pos as int, columns@) == prepend_to(
                    value_views(payload@),
                    spec_payload(bytes@, at as int, columns@.skip(i as int)),
                ),
            decreases columns@.len() - i,
        {
            let (value, next) = match SerialValue::decode(bytes, at, columns[i]) {
                Ok(pair) => pair,
                Err(e) => {
                    return Err(e);
                },
            };
            proof {
                assert(columns@.skip(i as int).skip(1) =~= columns@.skip(i + 1));
                let rest = spec_payload(bytes@, next as int, columns@.skip(i + 1));
                if let Ok((items, end)) = rest {
                    assert(value_views(payload@) + (seq![value@] + items) =~= value_views(
                        payload@.push(value),
                    ) + items);
                }
            }
            payload.push(value);
            at = next;
            i += 1;
        }
        assert(value_views(payload@) + Seq::<SerialValueView>::empty() =~= value_views(payload@));
        Ok((payload, at))
    }

    /// Reads the record at `pos`; the second component is the offset behind
    /// its last value.
    pub fn decode(bytes: &[u8], pos: usize) -> (r: Result<(Record, usize), DecodeError>)
        ensures
            match r {
                Ok((record, end)) => spec_decode_record(bytes@, pos as int) == Ok::<
                    _,
                    DecodeError,
                >((record@, end as int)) && record.wf() && end == pos + record.header_size.value
                    + total_width(record.columns@),
                Err(e) => spec_decode_record(bytes@, pos as int) == Err::<(RecordView, int), _>(e),
            },
    {
        proof {
            lemma_record_pairs(bytes@, pos as int);
        }
        let header_size = match VarInt::decode(bytes, pos) {
            Ok(v) => v,
            Err(e) => {
                return Err(e);
            },
        };
        let start = pos + header_size.width as usize;
        if header_size.value < header_size.width as u64 {
            return Err(DecodeError::UnexpectedEof);
        }
        let len = header_size.value - header_size.width as u64;
        if len > (bytes.len() - start) as u64 {
            return Err(DecodeError::UnexpectedEof);
        }
        let end = start + len as usize;
        let columns = match Record::decode_columns(slice_subrange(bytes, start, end)) {
            Ok(columns) => columns,
            Err(e) => {
                return Err(e);
            },
        };
        match Record::decode_payload(bytes, end, &columns) {
            Ok((payload, next)) => Ok((Record { header_size, columns, payload }, next)),
            Err(e) => Err(e),
        }
    }
}

} // verus!
