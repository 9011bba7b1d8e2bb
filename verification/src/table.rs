//! The table: a row count bound to a pager.
//!
//! Rows are numbered from zero without holes. Row `r` lives in page `r / 14`,
//! at byte `(r % 14) * 291` of that page. Opening a table takes the row count
//! from the length of the file; closing it writes back the pages that hold
//! rows, the last of them only as far as its rows reach.

use vstd::prelude::*;
use crate::file::FileData;
use crate::file::FileImage;
use crate::layout::row_offset;
use crate::layout::row_page;
use crate::layout::PAGE_SIZE;
use crate::layout::ROWS_PER_PAGE;
use crate::layout::ROW_SIZE;
use crate::layout::TABLE_MAX_PAGES;
use crate::layout::TABLE_MAX_ROWS;
use crate::pager::Pager;
use crate::pager::PagerData;
use crate::row::decode_row;
use crate::row::encode_row;
use crate::row::overwrite;
use crate::row::RowData;

verus! {

/// A table: the number of rows it holds, and the pager that holds them.
#[derive(Debug)]
pub struct Table {
    pub nrows: usize,
    pub pager: Pager,
}

/// The mathematical value of a table.
pub struct TableData {
    pub nrows: nat,
    pub pager: PagerData,
}

impl View for Table {
    type V = TableData;

    open spec fn view(&self) -> TableData {
        TableData { nrows: self.nrows as nat, pager: self.pager@ }
    }
}

/// Number of pages that hold at least one of the first `nrows` rows.
pub open spec fn pages_in_use(nrows: int) -> int {
    (nrows + ROWS_PER_PAGE - 1) / (ROWS_PER_PAGE as int)
}

impl PagerData {
    /// The pager once each of the first `k` pages has been asked for.
    pub open spec fn allocate_pages(self, k: int) -> PagerData {
        PagerData {
            slots: Seq::new(
                self.slots.len(),
                |p: int|
                    if p < k {
                        self.page(p)
                    } else {
                        self.slots[p]
                    },
            ),
            ..self
        }
    }

    /// The pager once each of the first `k` pages that has a buffer has been
    /// written to the file whole, in rising order.
    pub open spec fn flush_pages(self, k: int) -> PagerData
        decreases k,
    {
        if k <= 0 {
            self
        } else {
            let before = self.flush_pages(k - 1);
            if before.is_materialized(k - 1) {
                before.flush(k - 1, PAGE_SIZE as int)
            } else {
                before
            }
        }
    }
}

impl TableData {
    /// The table that opening `file` gives: as many rows as the length of the
    /// file has room for, and no page materialized.
    pub open spec fn open(file: FileData) -> TableData {
        TableData { nrows: file.bytes.len() / (ROW_SIZE as nat), pager: PagerData::open(file) }
    }

    /// The row count is within the table's capacity, the pager is well
    /// formed, and nothing has been written to the file since it was opened.
    pub open spec fn wf(self) -> bool {
        &&& self.nrows <= TABLE_MAX_ROWS
        &&& self.pager.wf()
        &&& self.pager.file_length == self.pager.file.bytes.len()
    }

    /// The table has no room for another row.
    pub open spec fn is_full(self) -> bool {
        self.nrows >= TABLE_MAX_ROWS
    }

    /// The 291 bytes at the place of row `r`.
    pub open spec fn row_bytes(self, r: int) -> Seq<u8> {
        self.pager.page(row_page(r)).subrange(row_offset(r), row_offset(r) + ROW_SIZE)
    }

    /// Row `r`.
    pub open spec fn row(self, r: int) -> RowData {
        decode_row(self.row_bytes(r))
    }

    /// The rows of the table, in the order of their numbers.
    pub open spec fn rows(self) -> Seq<RowData> {
        Seq::new(self.nrows, |r: int| self.row(r))
    }

    /// The table once the place of row `r` has been located: the page of
    /// that row is materialized.
    pub open spec fn located(self, r: int) -> TableData {
        TableData { pager: self.pager.allocate_page(row_page(r)), ..self }
    }

    /// The table once `row` has been appended: the page of the new row is
    /// materialized, the encoding of the row is written at its place, and
    /// the row count is one more.
    pub open spec fn insert(self, row: RowData) -> TableData {
        let p = row_page(self.nrows as int);
        let pager = self.pager.allocate_page(p);
        TableData {
            nrows: self.nrows + 1,
            pager: pager.with_page(
                p,
                overwrite(pager.slots[p], row_offset(self.nrows as int), encode_row(row)),
            ),
        }
    }

    /// The table once all its rows have been read: every page that holds a
    /// row is materialized.
    pub open spec fn scanned(self) -> TableData {
        TableData { pager: self.pager.allocate_pages(pages_in_use(self.nrows as int)), ..self }
    }

    /// The file that closing the table leaves: each full page that has a
    /// buffer is written whole, and the last, partial page, if it has a
    /// buffer, is written as far as its rows reach.
    pub open spec fn close(self) -> FileData {
        let full = self.nrows as int / (ROWS_PER_PAGE as int);
        let rest = self.nrows as int % (ROWS_PER_PAGE as int);
        let pager = self.pager.flush_pages(full);
        if rest > 0 && pager.is_materialized(full) {
            pager.flush(full, rest * ROW_SIZE).file
        } else {
            pager.file
        }
    }
}

/// Writing pages to the file changes neither the slots nor the recorded
/// length, and keeps the pager well formed.
pub proof fn lemma_flush_pages(pager: PagerData, k: int)
    requires
        pager.wf(),
        k <= TABLE_MAX_PAGES,
    ensures
        pager.flush_pages(k).wf(),
        pager.flush_pages(k).slots == pager.slots,
        pager.flush_pages(k).file_length == pager.file_length,
        pager.flush_pages(k).file.path == pager.file.path,
        pager.flush_pages(k).file.bytes.len() >= pager.file.bytes.len(),
    decreases k,
{
    if k > 0 {
        lemma_flush_pages(pager, k - 1);
    }
}

/// Opens the table kept in `file`.
pub fn db_open(file: FileImage) -> (table: Table)
    requires
        file@.bytes.len() / (ROW_SIZE as nat) <= TABLE_MAX_ROWS,
    ensures
        table@ == TableData::open(file@),
        table@.wf(),
{
    let pager = Pager::new(file);
    let nrows: usize = pager.file_length / ROW_SIZE;
    Table { nrows, pager }
}

/// Opens an empty table whose file is kept at `path`.
pub fn db_open_new(path: &str) -> (table: Table)
    ensures
        table@ == TableData::open(FileData { path: path@, bytes: Seq::empty() }),
        table@.wf(),
        table@.nrows == 0,
{
    db_open(FileImage::empty(path))
}

impl Table {
    /// Number of rows in the table.
    pub fn len(&self) -> (n: usize)
        ensures
            n == self@.nrows,
    {
        self.nrows
    }

    /// Whether the table is well formed.
    pub fn is_well_formed(&self) -> (b: bool)
        ensures
            b == self@.wf(),
    {
        self.nrows <= TABLE_MAX_ROWS && self.pager.is_well_formed() && self.pager.file_length
            == self.pager.file.len()
    }

    /// Closes the table and returns its file, with the pages that hold rows
    /// written back.
    pub fn close(self) -> (file: FileImage)
        requires
            self@.wf(),
        ensures
            file@ == self@.close(),
    {
        let mut table = self;
        let num_full_pages: usize = table.nrows / ROWS_PER_PAGE;
        let mut i: usize = 0;
        while i < num_full_pages
            invariant
                i <= num_full_pages <= TABLE_MAX_PAGES,
                table.nrows == self.nrows,
                self@.pager.wf(),
                table.pager@.wf(),
                table.pager@ == self@.pager.flush_pages(i as int),
            decreases num_full_pages - i,
        {
            if table.pager.is_materialized(i) {
                table.pager.flush(i, PAGE_SIZE);
            }
            i += 1;
        }
        let num_additional_rows: usize = table.nrows % ROWS_PER_PAGE;
        if num_additional_rows > 0 {
            if table.pager.is_materialized(num_full_pages) {
                table.pager.flush(num_full_pages, num_additional_rows * ROW_SIZE);
            }
        }
        table.pager.file
    }
}

} // verus!
