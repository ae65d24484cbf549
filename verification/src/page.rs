//! B-tree pages.
//!
//! A page starts with a page header (behind the database header on the first
//! page), followed by the cell pointer array: one two-byte offset for each
//! cell, counted from the start of the page. The cells themselves lie
//! anywhere behind that.

use crate::error::DecodeError;
use crate::header::{get_u16, get_u32, spec_decode_header, u16_at, u32_at, Header, HeaderView, HEADER_SIZE};
use crate::record::{prepend, spec_decode_record, Record, RecordView};
use crate::varint::{spec_decode, VarInt};
use crate::wire::in_bounds;
use vstd::prelude::*;

verus! {

/// A b-tree page is either an interior page or a leaf page, of a table or of
/// an index.
#[derive(Copy, Clone, Debug, PartialEq, Eq, Structural)]
pub enum PageType {
    /// Flag byte 0x02.
    InteriorIndex,
    /// Flag byte 0x05.
    InteriorTable,
    /// Flag byte 0x0a.
    LeafIndex,
    /// Flag byte 0x0d.
    LeafTable,
}

/// The header of a b-tree page.
///
/// | Offset | Size | Field                                                  |
/// |--------|------|--------------------------------------------------------|
/// | 0      | 1    | The flag byte of the page type.                        |
/// | 1      | 2    | Start of the first freeblock (0 if none).              |
/// | 3      | 2    | Number of cells on the page.                           |
/// | 5      | 2    | Start of the cell content area.                        |
/// | 7      | 1    | Number of fragmented free bytes in the content area.   |
/// | 8      | 4    | Right-most pointer (interior pages only).              |
#[derive(Copy, Clone, Debug, PartialEq)]
pub struct BTreePageHeader {
    pub page_type: PageType,
    pub first_freeblock: u16,
    pub num_cells: u16,
    pub cell_content_start: u16,
    pub fragmented_free_bytes: u8,
    /// Present on interior pages, and on them only.
    pub right_most_pointer: Option<u32>,
}

/// A cell of a table leaf: one row.
#[derive(Debug, PartialEq)]
pub struct TableLeafCell {
    /// The length in bytes of the record.
    pub size: VarInt,
    /// The integer key of the row.
    pub row_id: VarInt,
    pub record: Record,
}

/// What a [`TableLeafCell`] holds.
pub struct TableLeafCellView {
    pub size: VarInt,
    pub row_id: VarInt,
    pub record: RecordView,
}

impl View for TableLeafCell {
    type V = TableLeafCellView;

    open spec fn view(&self) -> TableLeafCellView {
        TableLeafCellView { size: self.size, row_id: self.row_id, record: self.record@ }
    }
}

/// A table leaf page.
#[derive(Debug, PartialEq)]
pub struct TableLeaf {
    /// The database header, which only the first page has.
    pub db_header: Option<Header>,
    pub page_header: BTreePageHeader,
    /// The offset of each cell from the start of the page.
    pub cell_pointers: Vec<u16>,
    /// The cell at each of `cell_pointers`, in their order.
    pub cells: Vec<TableLeafCell>,
}

/// What a [`TableLeaf`] holds.
pub struct TableLeafView {
    pub db_header: Option<HeaderView>,
    pub page_header: BTreePageHeader,
    pub cell_pointers: Seq<u16>,
    pub cells: Seq<TableLeafCellView>,
}

/// What each of a run of cells holds.
pub open spec fn cell_views(cells: Seq<TableLeafCell>) -> Seq<TableLeafCellView> {
    Seq::new(cells.len(), |i: int| cells[i]@)
}

/// What a header that may be there holds.
pub open spec fn header_view(header: Option<Header>) -> Option<HeaderView> {
    match header {
        Some(h) => Some(h@),
        None => None,
    }
}

impl View for TableLeaf {
    type V = TableLeafView;

    open spec fn view(&self) -> TableLeafView {
        TableLeafView {
            db_header: header_view(self.db_header),
            page_header: self.page_header,
            cell_pointers: self.cell_pointers@,
            cells: cell_views(self.cells@),
        }
    }
}

/// A page of the file. Every page is read as a table leaf.
#[derive(Debug, PartialEq)]
pub enum Page {
    TableLeaf(TableLeaf),
}

/// What a [`Page`] holds.
pub enum PageView {
    TableLeaf(TableLeafView),
}

impl View for Page {
    type V = PageView;

    open spec fn view(&self) -> PageView {
        match self {
            Page::TableLeaf(leaf) => PageView::TableLeaf(leaf@),
        }
    }
}

/// The page type that a flag byte names.
pub open spec fn spec_page_type(flag: u8) -> Result<PageType, DecodeError> {
    if flag == 0x02 {
        Ok(PageType::InteriorIndex)
    } else if flag == 0x05 {
        Ok(PageType::InteriorTable)
    } else if flag == 0x0a {
        Ok(PageType::LeafIndex)
    } else if flag == 0x0d {
        Ok(PageType::LeafTable)
    } else {
        Err(DecodeError::InvalidPageType(flag))
    }
}

/// The page header at `pos` and the offset behind it: eight bytes on, or
/// twelve for an interior page. The flag byte is judged before the rest is
/// asked for.
pub open spec fn spec_decode_page_header(bytes: Seq<u8>, pos: int) -> Result<
    (BTreePageHeader, int),
    DecodeError,
> {
    if !in_bounds(bytes, pos, 1) {
        Err(DecodeError::UnexpectedEof)
    } else {
        match spec_page_type(bytes[pos]) {
            Err(e) => Err(e),
            Ok(page_type) => {
                let size: int = if page_type.spec_is_interior() {
                    12
                } else {
                    8
                };
                if !in_bounds(bytes, pos, size) {
                    Err(DecodeError::UnexpectedEof)
                } else {
                    Ok(
                        (
                            BTreePageHeader {
                                page_type,
                                first_freeblock: u16_at(bytes, pos + 1),
                                num_cells: u16_at(bytes, pos + 3),
                                cell_content_start: u16_at(bytes, pos + 5),
                                fragmented_free_bytes: bytes[pos + 7],
                                right_most_pointer: if page_type.spec_is_interior() {
                                    Some(u32_at(bytes, pos + 8))
                                } else {
                                    None
                                },
                            },
                            pos + size,
                        ),
                    )
                }
            },
        }
    }
}

/// The cell at `pos` and the offset behind its record: the size varint, the
/// row id varint and the record, one behind the other. The declared size is
/// not held against the record.
pub open spec fn spec_decode_cell(bytes: Seq<u8>, pos: int) -> Result<
    (TableLeafCellView, int),
    DecodeError,
> {
    match spec_decode(bytes, pos) {
        None => Err(DecodeError::InvalidVarint),
        Some(size) => match spec_decode(bytes, pos + size.width) {
            None => Err(DecodeError::InvalidVarint),
            Some(row_id) => match spec_decode_record(bytes, pos + size.width + row_id.width) {
                Err(e) => Err(e),
                Ok((record, end)) => Ok((TableLeafCellView { size, row_id, record }, end)),
            },
        },
    }
}

/// The cell at `pos`, if one can be read there.
pub open spec fn spec_cell_at(bytes: Seq<u8>, pos: int) -> Option<TableLeafCellView> {
    match spec_decode_cell(bytes, pos) {
        Ok((cell, _)) => Some(cell),
        Err(_) => None,
    }
}

/// The `count` two-byte offsets from `pos` on.
pub open spec fn spec_cell_pointers(bytes: Seq<u8>, pos: int, count: nat) -> Seq<u16> {
    Seq::new(count, |i: int| u16_at(bytes, pos + 2 * i))
}

/// The cell pointer array of `count` entries at `pos`, which the input has
/// to hold in full.
pub open spec fn spec_decode_cell_pointers(bytes: Seq<u8>, pos: int, count: nat) -> Result<
    Seq<u16>,
    DecodeError,
> {
    if in_bounds(bytes, pos, (2 * count) as int) {
        Ok(spec_cell_pointers(bytes, pos, count))
    } else {
        Err(DecodeError::UnexpectedEof)
    }
}

/// The cells that `pointers` name on the page that starts at `base`, in the
/// order of the pointers.
pub open spec fn spec_cells(bytes: Seq<u8>, base: int, pointers: Seq<u16>) -> Result<
    Seq<TableLeafCellView>,
    DecodeError,
>
    decreases pointers.len(),
{
    if pointers.len() == 0 {
        Ok(Seq::empty())
    } else {
        match spec_decode_cell(bytes, base + pointers[0]) {
            Err(e) => Err(e),
            Ok((cell, _)) => prepend(seq![cell], spec_cells(bytes, base, pointers.skip(1))),
        }
    }
}

/// The database header of the page at `base`, if the page is the first of
/// the file and starts with one. A header that cannot be read is no header,
/// not a failure.
pub open spec fn spec_page_db_header(bytes: Seq<u8>, base: int, page_index: u32) -> Option<
    HeaderView,
> {
    if page_index == 0 {
        match spec_decode_header(bytes, base) {
            Ok(header) => Some(header),
            Err(_) => None,
        }
    } else {
        None
    }
}

/// The table leaf that starts at `base`, behind the database header if the
/// page has one: the page header, the cell pointers behind it, and the cell
/// at each pointer's distance from `base`.
pub open spec fn spec_decode_leaf(bytes: Seq<u8>, base: int, db_header: Option<HeaderView>) -> Result<
    TableLeafView,
    DecodeError,
> {
    let start = if db_header.is_some() {
        base + 100
    } else {
        base
    };
    match spec_decode_page_header(bytes, start) {
        Err(e) => Err(e),
        Ok((page_header, pointers_at)) => match spec_decode_cell_pointers(
            bytes,
            pointers_at,
            page_header.num_cells as nat,
        ) {
            Err(e) => Err(e),
            Ok(cell_pointers) => match spec_cells(bytes, base, cell_pointers) {
                Err(e) => Err(e),
                Ok(cells) => Ok(TableLeafView { db_header, page_header, cell_pointers, cells }),
            },
        },
    }
}

/// The page that starts at `base`: a table leaf, with the database header
/// in front where the page is the first of the file and starts with one.
pub open spec fn spec_decode_page(bytes: Seq<u8>, base: int, page_index: u32) -> Result<
    PageView,
    DecodeError,
> {
    match spec_decode_leaf(bytes, base, spec_page_db_header(bytes, base, page_index)) {
        Err(e) => Err(e),
        Ok(leaf) => Ok(PageView::TableLeaf(leaf)),
    }
}

/// The cells of a page follow its cell pointers: there is one for each
/// pointer, and the cell at a place in the list is the one that the pointer
/// at that place leads to, whatever the order of the cells on the page.
pub proof fn lemma_cells_follow_pointers(bytes: Seq<u8>, base: int, pointers: Seq<u16>)
    ensures
        spec_cells(bytes, base, pointers) matches Ok(cells) ==> cells.len() == pointers.len() && (
        forall|i: int|
            0 <= i < pointers.len() ==> spec_cell_at(bytes, base + pointers[i]) == Some(
                #[trigger] cells[i],
            )),
    decreases pointers.len(),
{
    if pointers.len() > 0 {
        let tail = pointers.skip(1);
        lemma_cells_follow_pointers(bytes, base, tail);
        if let Ok(cells) = spec_cells(bytes, base, pointers) {
            let rest = spec_cells(bytes, base, tail).unwrap();
            assert(cells =~= seq![cells[0]] + rest);
            assert forall|i: int| 0 <= i < pointers.len() implies spec_cell_at(
                bytes,
                base + pointers[i],
            ) == Some(#[trigger] cells[i]) by {
                if i > 0 {
                    assert(pointers[i] == tail[i - 1]);
                    assert(cells[i] == rest[i - 1]);
                }
            }
        }
    }
}

impl PageType {
    /// Whether pages of this type are interior pages.
    pub open spec fn spec_is_interior(self) -> bool {
        self == PageType::InteriorIndex || self == PageType::InteriorTable
    }

    /// Whether pages of this type are interior pages.
    pub fn is_interior(self) -> (r: bool)
        ensures
            r == self.spec_is_interior(),
    {
        match self {
            PageType::InteriorIndex => true,
            PageType::InteriorTable => true,
            PageType::LeafIndex => false,
            PageType::LeafTable => false,
        }
    }

    /// The page type that `flag` names; any byte but 0x02, 0x05, 0x0a and
    /// 0x0d names none.
    pub fn from_flag(flag: u8) -> (r: Result<PageType, DecodeError>)
        ensures
            r == spec_page_type(flag),
    {
        match flag {
            0x02 => Ok(PageType::InteriorIndex),
            0x05 => Ok(PageType::InteriorTable),
            0x0a => Ok(PageType::LeafIndex),
            0x0d => Ok(PageType::LeafTable),
            _ => Err(DecodeError::InvalidPageType(flag)),
        }
    }
}

impl BTreePageHeader {
    /// Whether the right-most pointer is there on interior pages and nowhere
    /// else.
    pub open spec fn wf(&self) -> bool {
        self.right_most_pointer.is_some() == self.page_type.spec_is_interior()
    }

    /// Reads the page header at `pos`; the second component is the offset
    /// behind it.
    pub fn decode(bytes: &[u8], pos: usize) -> (r: Result<(BTreePageHeader, usize), DecodeError>)
        ensures
            match r {
                Ok((header, next)) => spec_decode_page_header(bytes@, pos as int) == Ok::<
                    _,
                    DecodeError,
                >((header, next as int)) && header.wf(),
                Err(e) => spec_decode_page_header(bytes@, pos as int) == Err::<
                    (BTreePageHeader, int),
                    _,
                >(e),
            },
            r matches Ok((_, next)) ==> pos < next <= bytes@.len(),
    {
        if pos >= bytes.len() {
            return Err(DecodeError::UnexpectedEof);
        }
        let page_type = match PageType::from_flag(bytes[pos]) {
            Ok(page_type) => page_type,
            Err(e) => {
                return Err(e);
            },
        };
        let interior = page_type.is_interior();
        let size: usize = if interior {
            12
        } else {
            8
        };
        if bytes.len() - pos < size {
            return Err(DecodeError::UnexpectedEof);
        }
        let right_most_pointer = if interior {
            Some(get_u32(bytes, pos + 8))
        } else {
            None
        };
        Ok(
            (
                BTreePageHeader {
                    page_type,
                    first_freeblock: get_u16(bytes, pos + 1),
                    num_cells: get_u16(bytes, pos + 3),
                    cell_content_start: get_u16(bytes, pos + 5),
                    fragmented_free_bytes: bytes[pos + 7],
                    right_most_pointer,
                },
                pos + size,
            ),
        )
    }
}

impl TableLeafCell {
    /// Reads the cell at `pos`; the second component is the offset behind
    /// its record.
    pub fn decode(bytes: &[u8], pos: usize) -> (r: Result<(TableLeafCell, usize), DecodeError>)
        ensures
            match r {
                Ok((cell, end)) => spec_decode_cell(bytes@, pos as int) == Ok::<_, DecodeError>(
                    (cell@, end as int),
                ) && cell.record.wf(),
                Err(e) => spec_decode_cell(bytes@, pos as int) == Err::<
                    (TableLeafCellView, int),
                    _,
                >(e),
            },
    {
        let size = match VarInt::decode(bytes, pos) {
            Ok(v) => v,
            Err(e) => {
                return Err(e);
            },
        };
        let row_id = match VarInt::decode(bytes, pos + size.width as usize) {
            Ok(v) => v,
            Err(e) => {
                return Err(e);
            },
        };
        match Record::decode(bytes, pos + size.width as usize + row_id.width as usize) {
            Ok((record, end)) => Ok((TableLeafCell { size, row_id, record }, end)),
            Err(e) => Err(e),
        }
    }
}

impl TableLeaf {
    /// Whether the page has a cell for each pointer, as many as its header
    /// counts, each with a value for each column.
    pub open spec fn wf(&self) -> bool {
        &&& self.page_header.wf()
        &&& self.cell_pointers@.len() == self.page_header.num_cells
        &&& self.cells@.len() == self.cell_pointers@.len()
        &&& forall|i: int| 0 <= i < self.cells@.len() ==> (#[trigger] self.cells@[i]).record.wf()
    }

    /// Reads the cell pointer array of `count` entries at `pos`. Fails where
    /// the input ends before the array does.
    pub fn decode_cell_pointers(bytes: &[u8], pos: usize, count: u16) -> (r: Result<
        Vec<u16>,
        DecodeError,
    >)
        ensures
            match r {
                Ok(pointers) => spec_decode_cell_pointers(bytes@, pos as int, count as nat)
                    == Ok::<_, DecodeError>(pointers@),
                Err(e) => spec_decode_cell_pointers(bytes@, pos as int, count as nat) == Err::<
                    Seq<u16>,
                    _,
                >(e),
            },
    {
        let len = bytes.len();
        if pos > len || len - pos < 2 * (count as usize) {
            return Err(DecodeError::UnexpectedEof);
        }
        let mut pointers: Vec<u16> = Vec::with_capacity(count as usize);
        let mut i: usize = 0;
        while i < count as usize
            invariant
                i <= count,
                len == bytes@.len(),
                in_bounds(bytes@, pos as int, 2 * count),
                pointers@.len() == i,
                forall|j: int| 0 <= j < i ==> pointers@[j] == u16_at(bytes@, pos + 2 * j),
            decreases count - i,
        {
            pointers.push(get_u16(bytes, pos + 2 * i));
            i += 1;
        }
        assert(pointers@ =~= spec_cell_pointers(bytes@, pos as int, count as nat));
        Ok(pointers)
    }

    /// Reads the cell at each of `pointers`, counted from `base`, in the
    /// order of the pointers.
    pub fn decode_cells(bytes: &[u8], base: usize, pointers: &Vec<u16>) -> (r: Result<
        Vec<TableLeafCell>,
        DecodeError,
    >)
        ensures
            match r {
                Ok(cells) => spec_cells(bytes@, base as int, pointers@) == Ok::<_, DecodeError>(
                    cell_views(cells@),
                ) && cells@.len() == pointers@.len() && (forall|i: int|
                    0 <= i < cells@.len() ==> (#[trigger] cells@[i]).record.wf()),
                Err(e) => spec_cells(bytes@, base as int, pointers@) == Err::<
                    Seq<TableLeafCellView>,
                    _,
                >(e),
            },
    {
        let len = bytes.len();
        let mut cells: Vec<TableLeafCell> = Vec::with_capacity(pointers.len());
        let mut i: usize = 0;
        assert(pointers@.skip(0) =~= pointers@);
        while i < pointers.len()
            invariant
                i <= pointers@.len(),
                len == bytes@.len(),
                cells@.len() == i,
                forall|j: int| 0 <= j < cells@.len() ==> (#[trigger] cells@[j]).record.wf(),
                spec_cells(bytes@, base as int, pointers@) == prepend(
                    cell_views(cells@),
                    spec_cells(bytes@, base as int, pointers@.skip(i as int)),
                ),
            decreases pointers@.len() - i,
        {
            let offset = pointers[i] as usize;
            if base > len || offset >= len - base {
                // The pointer leads out of the input, where no varint starts.
                return Err(DecodeError::InvalidVarint);
            }
            let cell = match TableLeafCell::decode(bytes, base + offset) {
                Ok((cell, _)) => cell,
                Err(e) => {
                    return Err(e);
                },
            };
            proof {
                assert(pointers@.skip(i as int).skip(1) =~= pointers@.skip(i + 1));
                let rest = spec_cells(bytes@, base as int, pointers@.skip(i + 1));
                if let Ok(items) = rest {
                    assert(cell_views(cells@) + (seq![cell@] + items) =~= cell_views(
                        cells@.push(cell),
                    ) + items);
                }
            }
            cells.push(cell);
            i += 1;
        }
        assert(cell_views(cells@) + Seq::<TableLeafCellView>::empty() =~= cell_views(cells@));
        Ok(cells)
    }
}

impl TableLeaf {
    /// Reads the table leaf that starts at `base`, behind `db_header` if the
    /// page has one. The cell pointers follow the page header, and each
    /// cell is read at its pointer's distance from `base`.
    pub fn decode(bytes: &[u8], base: usize, db_header: Option<Header>) -> (r: Result<
        TableLeaf,
        DecodeError,
    >)
        ensures
            match r {
                Ok(leaf) => spec_decode_leaf(bytes@, base as int, header_view(db_header)) == Ok::<
                    _,
                    DecodeError,
                >(leaf@) && leaf.wf(),
                Err(e) => spec_decode_leaf(bytes@, base as int, header_view(db_header)) == Err::<
                    TableLeafView,
                    _,
                >(e),
            },
    {
        let len = bytes.len();
        let start = if db_header.is_some() {
            if len < HEADER_SIZE || base > len - HEADER_SIZE {
                // No page header behind a database header that the input
                // does not hold.
                return Err(DecodeError::UnexpectedEof);
            }
            base + HEADER_SIZE
        } else {
            base
        };
        let (page_header, pointers_at) = match BTreePageHeader::decode(bytes, start) {
            Ok(pair) => pair,
            Err(e) => {
                return Err(e);
            },
        };
        let cell_pointers = match TableLeaf::decode_cell_pointers(
            bytes,
            pointers_at,
            page_header.num_cells,
        ) {
            Ok(pointers) => pointers,
            Err(e) => {
                return Err(e);
            },
        };
        match TableLeaf::decode_cells(bytes, base, &cell_pointers) {
            Ok(cells) => Ok(TableLeaf { db_header, page_header, cell_pointers, cells }),
            Err(e) => Err(e),
        }
    }
}

impl Page {
    /// Whether the page is well formed.
    pub open spec fn wf(&self) -> bool {
        match self {
            Page::TableLeaf(leaf) => leaf.wf(),
        }
    }

    /// Looks for a database header at `base` on the first page of the file.
    /// A header that cannot be read is no header, not a failure.
    pub fn probe_db_header(bytes: &[u8], base: usize, page_index: u32) -> (r: Option<Header>)
        ensures
            header_view(r) == spec_page_db_header(bytes@, base as int, page_index),
            r.is_some() ==> base + HEADER_SIZE <= bytes@.len(),
    {
        if page_index == 0 {
            match Header::decode(bytes, base) {
                Ok(header) => Some(header),
                Err(_) => None,
            }
        } else {
            None
        }
    }

    /// Reads the page that starts at `base`.
    ///
    /// On the first page of the file (`page_index` 0) a database header is
    /// looked for at `base`; where there is none the page header is read
    /// from `base`, as on every other page.
    pub fn decode(bytes: &[u8], base: usize, page_index: u32) -> (r: Result<Page, DecodeError>)
        ensures
            match r {
                Ok(page) => spec_decode_page(bytes@, base as int, page_index) == Ok::<
                    _,
                    DecodeError,
                >(page@) && page.wf(),
                Err(e) => spec_decode_page(bytes@, base as int, page_index) == Err::<PageView, _>(
                    e,
                ),
            },
    {
        let db_header = Page::probe_db_header(bytes, base, page_index);
        match TableLeaf::decode(bytes, base, db_header) {
            Ok(leaf) => Ok(Page::TableLeaf(leaf)),
            Err(e) => Err(e),
        }
    }
}

} // verus!
