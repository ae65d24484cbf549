//! The whole file: the database header and every page.

use crate::error::DecodeError;
use crate::header::{spec_decode_header, Header, HeaderView};
use crate::page::{spec_decode_page, Page, PageView};
use crate::record::prepend;
use vstd::prelude::*;

verus! {

/// A database: its header and its pages in file order.
#[derive(Debug, PartialEq)]
pub struct Database {
    /// A database starts with a header ...
    pub db_header: Header,
    /// ... followed by a number of pages. The header is part of the first
    /// page.
    pub pages: Vec<Page>,
}

/// What a [`Database`] holds.
pub struct DatabaseView {
    pub db_header: HeaderView,
    pub pages: Seq<PageView>,
}

/// What each of a run of pages holds.
pub open spec fn page_views(pages: Seq<Page>) -> Seq<PageView> {
    Seq::new(pages.len(), |i: int| pages[i]@)
}

impl View for Database {
    type V = DatabaseView;

    open spec fn view(&self) -> DatabaseView {
        DatabaseView { db_header: self.db_header@, pages: page_views(self.pages@) }
    }
}

/// The pages with the indices `from` up to `count`, page `i` read at offset
/// `i * page_size`.
pub open spec fn spec_pages(bytes: Seq<u8>, page_size: nat, from: nat, count: nat) -> Result<
    Seq<PageView>,
    DecodeError,
>
    decreases count - from,
{
    if from >= count {
        Ok(Seq::empty())
    } else {
        match spec_decode_page(bytes, (from * page_size) as int, from as u32) {
            Err(e) => Err(e),
            Ok(page) => prepend(seq![page], spec_pages(bytes, page_size, from + 1, count)),
        }
    }
}

/// The database that `bytes` hold: the header at offset 0, then as many
/// pages as the header counts. Any failure of the header or of a page is the
/// failure of the whole.
pub open spec fn spec_decode_database(bytes: Seq<u8>) -> Result<DatabaseView, DecodeError> {
    match spec_decode_header(bytes, 0) {
        Err(e) => Err(e),
        Ok(db_header) => match spec_pages(
            bytes,
            Header::spec_page_size_bytes(db_header),
            0,
            db_header.database_page_count as nat,
        ) {
            Err(e) => Err(e),
            Ok(pages) => Ok(DatabaseView { db_header, pages }),
        },
    }
}

/// Whether `r` is what decoding `bytes` gives.
pub open spec fn is_decoding_of(bytes: Seq<u8>, r: Result<Database, DecodeError>) -> bool {
    match r {
        Ok(database) => spec_decode_database(bytes) == Ok::<_, DecodeError>(database@)
            && database.wf(),
        Err(e) => spec_decode_database(bytes) == Err::<DatabaseView, _>(e),
    }
}

/// Decoding the same bytes twice gives the same: two failures for the same
/// reason, or two databases that hold the same.
pub proof fn lemma_decode_twice(
    bytes: Seq<u8>,
    first: Result<Database, DecodeError>,
    second: Result<Database, DecodeError>,
)
    requires
        is_decoding_of(bytes, first),
        is_decoding_of(bytes, second),
    ensures
        first.is_ok() == second.is_ok(),
        first.is_ok() ==> first.unwrap()@ == second.unwrap()@,
        first.is_err() ==> first.unwrap_err() == second.unwrap_err(),
{
}

/// A list of pages that decodes has one page for each index.
pub proof fn lemma_pages_len(bytes: Seq<u8>, page_size: nat, from: nat, count: nat)
    requires
        from <= count,
    ensures
        spec_pages(bytes, page_size, from, count) matches Ok(pages) ==> pages.len() == count
            - from,
    decreases count - from,
{
    if from < count {
        lemma_pages_len(bytes, page_size, from + 1, count);
    }
}

/// A decoded database has as many pages as its header counts.
pub proof fn lemma_database_page_count(bytes: Seq<u8>)
    ensures
        spec_decode_database(bytes) matches Ok(database) ==> database.pages.len()
            == database.db_header.database_page_count,
{
    if let Ok(db_header) = spec_decode_header(bytes, 0) {
        lemma_pages_len(
            bytes,
            Header::spec_page_size_bytes(db_header),
            0,
            db_header.database_page_count as nat,
        );
    }
}

/// A page that would start behind the end of the input, and is not the
/// first, ends too early.
proof fn lemma_page_out_of_input(bytes: Seq<u8>, base: int, page_index: u32)
    requires
        base >= bytes.len(),
        page_index != 0,
    ensures
        spec_decode_page(bytes, base, page_index) == Err::<PageView, _>(DecodeError::UnexpectedEof),
{
}

impl Database {
    /// Whether the database has as many pages as its header counts, each of
    /// them well formed.
    pub open spec fn wf(&self) -> bool {
        &&& self.pages@.len() == self.db_header.database_page_count
        &&& forall|i: int| 0 <= i < self.pages@.len() ==> (#[trigger] self.pages@[i]).wf()
    }

    /// Reads the pages with the indices 0 up to `count`, page `i` at offset
    /// `i * page_size`.
    pub fn decode_pages(bytes: &[u8], page_size: u32, count: u32) -> (r: Result<
        Vec<Page>,
        DecodeError,
    >)
        ensures
            match r {
                Ok(pages) => spec_pages(bytes@, page_size as nat, 0, count as nat) == Ok::<
                    _,
                    DecodeError,
                >(page_views(pages@)) && pages@.len() == count && (forall|i: int|
                    0 <= i < pages@.len() ==> (#[trigger] pages@[i]).wf()),
                Err(e) => spec_pages(bytes@, page_size as nat, 0, count as nat) == Err::<
                    Seq<PageView>,
                    _,
                >(e),
            },
    {
        let mut pages: Vec<Page> = Vec::new();
        let mut i: u32 = 0;
        while i < count
            invariant
                i <= count,
                pages@.len() == i,
                forall|j: int| 0 <= j < pages@.len() ==> (#[trigger] pages@[j]).wf(),
                spec_pages(bytes@, page_size as nat, 0, count as nat) == prepend(
                    page_views(pages@),
                    spec_pages(bytes@, page_size as nat, i as nat, count as nat),
                ),
            decreases count - i,
        {
            assert(i * page_size <= 0xffff_ffff * 0xffff_ffff) by (nonlinear_arith)
                requires
                    0 <= i <= 0xffff_ffff,
                    0 <= page_size <= 0xffff_ffff,
            ;
            let offset = i as u64 * page_size as u64;
            if offset > bytes.len() as u64 {
                proof {
                    lemma_page_out_of_input(bytes@, offset as int, i);
                }
                return Err(DecodeError::UnexpectedEof);
            }
            let page = match Page::decode(bytes, offset as usize, i) {
                Ok(page) => page,
                Err(e) => {
                    return Err(e);
                },
            };
            proof {
                let rest = spec_pages(bytes@, page_size as nat, (i + 1) as nat, count as nat);
                if let Ok(items) = rest {
                    assert(page_views(pages@) + (seq![page@] + items) =~= page_views(
                        pages@.push(page),
                    ) + items);
                }
            }
            pages.push(page);
            i += 1;
        }
        assert(page_views(pages@) + Seq::<PageView>::empty() =~= page_views(pages@));
        Ok(pages)
    }

    /// Reads the database that `bytes` hold.
    ///
    /// The header is read at offset 0, and page `i` at offset `i` times the
    /// page size, for every `i` below the header's page count. A header that
    /// cannot be read, or a page that cannot, fails the whole: no part of a
    /// database is returned.
    pub fn decode(bytes: &[u8]) -> (r: Result<Database, DecodeError>)
        ensures
            is_decoding_of(bytes@, r),
    {
        let db_header = match Header::decode(bytes, 0) {
            Ok(header) => header,
            Err(e) => {
                return Err(e);
            },
        };
        match Database::decode_pages(
            bytes,
            db_header.page_size_bytes(),
            db_header.database_page_count,
        ) {
            Ok(pages) => Ok(Database { db_header, pages }),
            Err(e) => Err(e),
        }
    }
}

} // verus!
