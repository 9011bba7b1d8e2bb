//! What closing a table leaves in its file, and what opening that file again
//! gives back.
//!
//! A page is written at its own place, a multiple of 4096, so a file that
//! holds `n` rows is `packed_len(n)` bytes long: 22 bytes more than `n * 291`
//! for every full page. Opening takes the row count from the length alone,
//! and so finds the count it was closed with as long as the table holds no
//! more than 195 rows.

use vstd::prelude::*;
use crate::file::FileData;
use crate::layout::lemma_layout_constants;
use crate::layout::packed_len;
use crate::layout::row_offset;
use crate::layout::row_page;
use crate::layout::PAGE_SIZE;
use crate::layout::ROWS_PER_PAGE;
use crate::layout::ROW_SIZE;
use crate::layout::TABLE_MAX_PAGES;
use crate::layout::TABLE_MAX_ROWS;
use crate::order::all_fit;
use crate::order::lemma_insert;
use crate::order::lemma_insertion_order;
use crate::order::stored_rows;
use crate::pager::lemma_allocate_page;
use crate::pager::lemma_stored_page_len;
use crate::pager::PagerData;
use crate::row::RowData;
use crate::table::lemma_flush_pages;
use crate::table::pages_in_use;
use crate::table::TableData;

verus! {

/// Largest number of rows that a file gives back as it was closed with.
pub const REOPEN_MAX_ROWS: usize = 195;

/// The larger of two integers.
pub open spec fn max(a: int, b: int) -> int {
    if a >= b {
        a
    } else {
        b
    }
}

impl PagerData {
    /// Where the last of the first `k` pages that has a buffer ends in the
    /// file, or zero if none of them has one.
    pub open spec fn flushed_end(self, k: int) -> int
        decreases k,
    {
        if k <= 0 {
            0
        } else if self.is_materialized(k - 1) {
            k * PAGE_SIZE
        } else {
            self.flushed_end(k - 1)
        }
    }
}

impl TableData {
    /// Closing the table writes the byte at `j` of the file: the byte lies in
    /// a page that has a buffer, and either the page is full or the byte
    /// belongs to one of the rows of the last, partial page.
    pub open spec fn writes_byte(self, j: int) -> bool {
        let full = self.nrows as int / (ROWS_PER_PAGE as int);
        let rest = self.nrows as int % (ROWS_PER_PAGE as int);
        let p = j / (PAGE_SIZE as int);
        &&& 0 <= p < TABLE_MAX_PAGES
        &&& self.pager.is_materialized(p)
        &&& p < full || (p == full && j % (PAGE_SIZE as int) < rest * ROW_SIZE)
    }

    /// Length of the file that closing the table leaves: the length it had,
    /// or the end of the last page written, if that lies further.
    pub open spec fn closed_len(self) -> int {
        let full = self.nrows as int / (ROWS_PER_PAGE as int);
        let rest = self.nrows as int % (ROWS_PER_PAGE as int);
        let whole = max(self.pager.file.bytes.len() as int, self.pager.flushed_end(full));
        if rest > 0 && self.pager.is_materialized(full) {
            max(whole, full * PAGE_SIZE + rest * ROW_SIZE)
        } else {
            whole
        }
    }

    /// The file has the length of `m` packed rows, the table holds no fewer,
    /// and if it holds more, the page of its last row has a buffer. This
    /// holds of a table opened on a file of `m` packed rows, and of that
    /// table after any inserts.
    pub open spec fn appended_since(self, m: int) -> bool {
        &&& 0 <= m <= self.nrows
        &&& self.pager.file.bytes.len() == packed_len(m)
        &&& self.nrows > m ==> self.pager.is_materialized(row_page(self.nrows - 1))
    }
}

/// A file of `n` packed rows has 22 bytes more than `n * 291` for every full
/// page. It has exactly `n * 291` bytes if `n` is less than 14, and its
/// length gives back `n` as the row count if and only if `n` is at most 195.
pub proof fn lemma_packed_len(n: int)
    requires
        0 <= n <= TABLE_MAX_ROWS,
    ensures
        packed_len(n) == n * ROW_SIZE + 22 * (n / (ROWS_PER_PAGE as int)),
        n < ROWS_PER_PAGE ==> packed_len(n) == n * ROW_SIZE,
        packed_len(n) / (ROW_SIZE as int) == n <==> n <= REOPEN_MAX_ROWS,
        n % (ROWS_PER_PAGE as int) != 0 && packed_len(n) == n * ROW_SIZE ==> n < ROWS_PER_PAGE,
{
    lemma_layout_constants();
}

/// A file of more packed rows is no shorter.
pub proof fn lemma_packed_len_grows(m: int, n: int)
    requires
        0 <= m <= n,
    ensures
        packed_len(m) <= packed_len(n),
{
    lemma_layout_constants();
    let a = m / 14;
    let b = n / 14;
    assert(m == 14 * a + m % 14 && n == 14 * b + n % 14);
    assert(0 <= m % 14 < 14 && 0 <= n % 14 < 14);
    if a == b {
        assert(m % 14 <= n % 14);
    } else {
        assert(a + 1 <= b);
        assert(packed_len(m) <= a * 4096 + 13 * 291);
        assert(packed_len(n) >= b * 4096);
    }
}

/// The pages written end no further than the last of them, and no nearer
/// than any of them that has a buffer.
pub proof fn lemma_flushed_end(pager: PagerData, k: int)
    requires
        0 <= k,
    ensures
        0 <= pager.flushed_end(k) <= k * PAGE_SIZE,
        forall|p: int|
            0 <= p < k && pager.is_materialized(p) ==> pager.flushed_end(k) >= (p + 1) * PAGE_SIZE,
        k > 0 && pager.is_materialized(k - 1) ==> pager.flushed_end(k) == k * PAGE_SIZE,
    decreases k,
{
    if k > 0 {
        lemma_flushed_end(pager, k - 1);
    }
}

/// What materializing a page gives, byte by byte: the byte of the file at
/// that place, or zero where the file has none.
pub proof fn lemma_stored_page_byte(pager: PagerData, p: int, i: int)
    requires
        pager.file_length == pager.file.bytes.len(),
        0 <= p,
        0 <= i < PAGE_SIZE,
    ensures
        pager.stored_page(p).len() == PAGE_SIZE,
        pager.stored_page(p)[i] == if p * PAGE_SIZE + i < pager.file.bytes.len() {
            pager.file.bytes[p * PAGE_SIZE + i]
        } else {
            0u8
        },
{
}

/// The file once the first `k` pages have been written: no shorter than it
/// was, reaching to the end of the last page written, and holding the
/// buffer of each page written, what it held elsewhere, and zero in gaps.
pub proof fn lemma_flush_pages_bytes(pager: PagerData, k: int)
    requires
        pager.wf(),
        0 <= k <= TABLE_MAX_PAGES,
    ensures
        pager.flush_pages(k).file.bytes.len() == max(
            pager.file.bytes.len() as int,
            pager.flushed_end(k),
        ),
        forall|j: int|
            0 <= j < pager.flush_pages(k).file.bytes.len() ==> #[trigger] pager.flush_pages(
                k,
            ).file.bytes[j] == if j / (PAGE_SIZE as int) < k && pager.is_materialized(
                j / (PAGE_SIZE as int),
            ) {
                pager.slots[j / (PAGE_SIZE as int)][j % (PAGE_SIZE as int)]
            } else if j < pager.file.bytes.len() {
                pager.file.bytes[j]
            } else {
                0u8
            },
    decreases k,
{
    if k > 0 {
        lemma_flush_pages_bytes(pager, k - 1);
        lemma_flush_pages(pager, k - 1);
        lemma_flushed_end(pager, k - 1);
        lemma_flushed_end(pager, k);
        let before = pager.flush_pages(k - 1);
        let after = pager.flush_pages(k);
        if before.is_materialized(k - 1) {
            assert(pager.slots[k - 1].len() == PAGE_SIZE);
            assert(pager.slots[k - 1].take(PAGE_SIZE as int) =~= pager.slots[k - 1]);
            assert forall|j: int| 0 <= j < after.file.bytes.len() implies #[trigger] after.file.bytes[j]
                == if j / (PAGE_SIZE as int) < k && pager.is_materialized(j / (PAGE_SIZE as int)) {
                pager.slots[j / (PAGE_SIZE as int)][j % (PAGE_SIZE as int)]
            } else if j < pager.file.bytes.len() {
                pager.file.bytes[j]
            } else {
                0u8
            } by {
                let p = j / (PAGE_SIZE as int);
                if (k - 1) * PAGE_SIZE <= j < k * PAGE_SIZE {
                    assert(p == k - 1);
                } else if j < before.file.bytes.len() {
                    assert(after.file.bytes[j] == before.file.bytes[j]);
                } else {
                    assert(p != k - 1);
                }
            }
        }
    }
}

/// The file that closing a table leaves: it keeps its path, is as long as
/// `closed_len` says, and holds the buffer of each page where the page was
/// written, what it held before elsewhere, and zero in gaps.
pub proof fn lemma_close_bytes(t: TableData)
    requires
        t.wf(),
    ensures
        t.close().path == t.pager.file.path,
        t.close().bytes.len() == t.closed_len(),
        t.close().bytes.len() >= t.pager.file.bytes.len(),
        forall|j: int|
            0 <= j < t.close().bytes.len() ==> #[trigger] t.close().bytes[j] == if t.writes_byte(
                j,
            ) {
                t.pager.slots[j / (PAGE_SIZE as int)][j % (PAGE_SIZE as int)]
            } else if j < t.pager.file.bytes.len() {
                t.pager.file.bytes[j]
            } else {
                0u8
            },
{
    lemma_layout_constants();
    let full = t.nrows as int / (ROWS_PER_PAGE as int);
    let rest = t.nrows as int % (ROWS_PER_PAGE as int);
    let pager = t.pager.flush_pages(full);
    lemma_flush_pages(t.pager, full);
    lemma_flush_pages_bytes(t.pager, full);
    lemma_flushed_end(t.pager, full);
    let closed = t.close().bytes;
    if rest > 0 && pager.is_materialized(full) {
        let size = rest * ROW_SIZE;
        assert(0 < size <= PAGE_SIZE);
        assert(t.pager.slots[full].len() == PAGE_SIZE);
        let data = pager.slots[full].take(size);
        assert(data.len() == size);
        assert forall|j: int| 0 <= j < closed.len() implies #[trigger] closed[j] == if t.writes_byte(
            j,
        ) {
            t.pager.slots[j / (PAGE_SIZE as int)][j % (PAGE_SIZE as int)]
        } else if j < t.pager.file.bytes.len() {
            t.pager.file.bytes[j]
        } else {
            0u8
        } by {
            let p = j / (PAGE_SIZE as int);
            if full * PAGE_SIZE <= j < full * PAGE_SIZE + size {
                assert(p == full);
                assert(closed[j] == data[j - full * PAGE_SIZE]);
            } else if j < pager.file.bytes.len() {
                assert(closed[j] == pager.file.bytes[j]);
            } else {
                assert(closed[j] == 0);
                if 0 <= p < full && t.pager.is_materialized(p) {
                    assert(t.pager.flushed_end(full) >= (p + 1) * PAGE_SIZE);
                }
            }
        }
    } else {
        assert forall|j: int| 0 <= j < closed.len() implies #[trigger] closed[j] == if t.writes_byte(
            j,
        ) {
            t.pager.slots[j / (PAGE_SIZE as int)][j % (PAGE_SIZE as int)]
        } else if j < t.pager.file.bytes.len() {
            t.pager.file.bytes[j]
        } else {
            0u8
        } by {
            let p = j / (PAGE_SIZE as int);
            assert(closed[j] == pager.file.bytes[j]);
            if p >= full && j >= t.pager.file.bytes.len() {
                assert(t.pager.flushed_end(full) <= full * PAGE_SIZE);
            }
        }
    }
}

/// Closing a table and opening its file again keeps every row: whatever the
/// row count that the new table takes from the file, each row of the closed
/// table reads as it did, at its number.
pub proof fn lemma_close_keeps_rows(t: TableData)
    requires
        t.wf(),
    ensures
        forall|r: int|
            0 <= r < t.nrows ==> #[trigger] TableData::open(t.close()).row(r) == t.row(r),
{
    lemma_layout_constants();
    lemma_close_bytes(t);
    let closed = t.close();
    let again = TableData::open(closed);
    let full = t.nrows as int / (ROWS_PER_PAGE as int);
    let rest = t.nrows as int % (ROWS_PER_PAGE as int);
    lemma_flushed_end(t.pager, full);
    assert forall|r: int| 0 <= r < t.nrows implies #[trigger] again.row(r) == t.row(r) by {
        let p = row_page(r);
        let o = row_offset(r);
        assert(0 <= p < TABLE_MAX_PAGES);
        assert(0 <= r % 14 < 14);
        assert(0 <= o && o + ROW_SIZE <= PAGE_SIZE);
        assert(p < full || (p == full && r % 14 < rest));
        assert(!again.pager.is_materialized(p));
        assert forall|i: int| o <= i < o + ROW_SIZE implies again.pager.page(p)[i] == t.pager.page(
            p,
        )[i] by {
            let j = p * PAGE_SIZE + i;
            assert(j / (PAGE_SIZE as int) == p && j % (PAGE_SIZE as int) == i);
            lemma_stored_page_byte(again.pager, p, i);
            if t.pager.is_materialized(p) {
                assert(t.writes_byte(j));
                assert(t.closed_len() > j);
                assert(closed.bytes[j] == t.pager.slots[p][i]);
            } else {
                lemma_stored_page_byte(t.pager, p, i);
                assert(!t.writes_byte(j));
                if j < closed.bytes.len() {
                    assert(closed.bytes[j] == if j < t.pager.file.bytes.len() {
                        t.pager.file.bytes[j]
                    } else {
                        0u8
                    });
                }
            }
        }
        assert(again.row_bytes(r) =~= t.row_bytes(r));
    }
}

/// Closing a table whose file had the length of `m` packed rows when it was
/// opened leaves a file that has the length of as many packed rows as the
/// table holds.
pub proof fn lemma_close_len(t: TableData, m: int)
    requires
        t.wf(),
        t.appended_since(m),
    ensures
        t.close().bytes.len() == packed_len(t.nrows as int),
{
    lemma_layout_constants();
    lemma_close_bytes(t);
    let n = t.nrows as int;
    let full = n / (ROWS_PER_PAGE as int);
    let rest = n % (ROWS_PER_PAGE as int);
    lemma_flushed_end(t.pager, full);
    lemma_packed_len_grows(m, n);
    assert(full * PAGE_SIZE <= packed_len(n));
    if n > m {
        if rest == 0 {
            assert(row_page(n - 1) == full - 1);
        } else {
            assert(row_page(n - 1) == full);
        }
    }
}

/// An insert keeps what `appended_since` states.
pub proof fn lemma_insert_appended(t: TableData, row: RowData, m: int)
    requires
        t.wf(),
        !t.is_full(),
        row.fits(),
        t.appended_since(m),
    ensures
        t.insert(row).appended_since(m),
{
    lemma_insert(t, row);
}

/// A run of inserts keeps what `appended_since` states.
pub proof fn lemma_insert_all_appended(t: TableData, rows: Seq<RowData>, m: int)
    requires
        t.wf(),
        t.nrows + rows.len() <= TABLE_MAX_ROWS,
        all_fit(rows),
        t.appended_since(m),
    ensures
        t.insert_all(rows).appended_since(m),
    decreases rows.len(),
{
    if rows.len() > 0 {
        let front = rows.drop_last();
        lemma_insert_all_appended(t, front, m);
        lemma_insertion_order(t, front);
        lemma_insert_appended(t.insert_all(front), rows.last(), m);
    }
}

/// Closing a table of at most 195 rows and opening its file again gives a
/// table with the same path, the same number of rows and the same rows.
pub proof fn lemma_reopen(t: TableData, m: int)
    requires
        t.wf(),
        t.appended_since(m),
        t.nrows <= REOPEN_MAX_ROWS,
    ensures
        TableData::open(t.close()).wf(),
        TableData::open(t.close()).nrows == t.nrows,
        TableData::open(t.close()).rows() == t.rows(),
        TableData::open(t.close()).pager.file.path == t.pager.file.path,
        TableData::open(t.close()).appended_since(t.nrows as int),
{
    lemma_layout_constants();
    lemma_close_bytes(t);
    lemma_close_len(t, m);
    lemma_close_keeps_rows(t);
    lemma_packed_len(t.nrows as int);
    let again = TableData::open(t.close());
    assert(again.rows() =~= t.rows());
}

/// Persistence. Rows inserted into an empty table, at most 195 of them, are
/// there again once the table has been closed and its file opened: the new
/// table has as many rows as were inserted, and a select reads them, as they
/// read back, in the order in which they were inserted.
pub proof fn lemma_persistence(path: Seq<char>, rows: Seq<RowData>)
    requires
        rows.len() <= REOPEN_MAX_ROWS,
        all_fit(rows),
    ensures
        TableData::open(
            TableData::open(FileData { path, bytes: Seq::empty() }).insert_all(rows).close(),
        ).nrows == rows.len(),
        TableData::open(
            TableData::open(FileData { path, bytes: Seq::empty() }).insert_all(rows).close(),
        ).rows() == stored_rows(rows),
        TableData::open(
            TableData::open(FileData { path, bytes: Seq::empty() }).insert_all(rows).close(),
        ).pager.file.path == path,
{
    lemma_layout_constants();
    let empty = TableData::open(FileData { path, bytes: Seq::empty() });
    assert(empty.wf());
    assert(empty.appended_since(0));
    lemma_insertion_order(empty, rows);
    lemma_insert_all_appended(empty, rows, 0);
    lemma_reopen(empty.insert_all(rows), 0);
    assert(empty.rows() + stored_rows(rows) =~= stored_rows(rows));
}

/// The length of the file after a clean close. A table that was opened
/// empty and closed with `n` rows leaves a file of `n` packed rows; that is
/// `n * 291` bytes exactly if `n`, not a multiple of 14, is less than 14.
pub proof fn lemma_closed_file_len(path: Seq<char>, rows: Seq<RowData>)
    requires
        rows.len() <= TABLE_MAX_ROWS,
        all_fit(rows),
    ensures
        TableData::open(FileData { path, bytes: Seq::empty() }).insert_all(
            rows,
        ).close().bytes.len() == packed_len(rows.len() as int),
        rows.len() < ROWS_PER_PAGE ==> TableData::open(
            FileData { path, bytes: Seq::empty() },
        ).insert_all(rows).close().bytes.len() == rows.len() * ROW_SIZE,
{
    lemma_layout_constants();
    let empty = TableData::open(FileData { path, bytes: Seq::empty() });
    assert(empty.wf());
    assert(empty.appended_since(0));
    lemma_insertion_order(empty, rows);
    lemma_insert_all_appended(empty, rows, 0);
    lemma_close_len(empty.insert_all(rows), 0);
    lemma_packed_len(rows.len() as int);
}

/// Pages are materialized lazily: a table just opened has no page
/// materialized, whatever its file holds.
pub proof fn lemma_open_materializes_nothing(file: FileData)
    ensures
        forall|q: int|
            0 <= q < TABLE_MAX_PAGES ==> !(#[trigger] TableData::open(file).pager.is_materialized(
                q,
            )),
        TableData::open(file).pager.file == file,
{
}

/// Locating a row gives a buffer to the page of that row and to no other,
/// and changes the content of no page.
pub proof fn lemma_locate_materializes_one_page(t: TableData, r: int)
    requires
        t.wf(),
        0 <= r < TABLE_MAX_ROWS,
    ensures
        t.located(r).wf(),
        t.located(r).pager.is_materialized(row_page(r)),
        forall|q: int|
            0 <= q < TABLE_MAX_PAGES && q != row_page(r) ==> #[trigger] t.located(r).pager.slots[q]
                == t.pager.slots[q],
        forall|q: int|
            0 <= q < TABLE_MAX_PAGES ==> #[trigger] t.located(r).pager.page(q) == t.pager.page(q),
        t.located(r).rows() == t.rows(),
        t.located(r).pager.file == t.pager.file,
{
    lemma_layout_constants();
    lemma_allocate_page(t.pager, row_page(r));
    assert(t.located(r).rows() =~= t.rows());
}

/// Reading all rows gives a buffer to the pages that hold a row and to no
/// other, and changes the content of no page.
pub proof fn lemma_scan_materializes_used_pages(t: TableData)
    requires
        t.wf(),
    ensures
        t.scanned().wf(),
        forall|q: int|
            0 <= q < pages_in_use(t.nrows as int) ==> #[trigger] t.scanned().pager.is_materialized(
                q,
            ),
        forall|q: int|
            pages_in_use(t.nrows as int) <= q < TABLE_MAX_PAGES ==> #[trigger] t.scanned().pager.slots[q]
                == t.pager.slots[q],
        forall|q: int|
            0 <= q < TABLE_MAX_PAGES ==> #[trigger] t.scanned().pager.page(q) == t.pager.page(q),
        t.scanned().rows() == t.rows(),
        t.scanned().pager.file == t.pager.file,
{
    lemma_layout_constants();
    assert forall|q: int| 0 <= q < TABLE_MAX_PAGES implies (#[trigger] t.pager.page(q)).len()
        == PAGE_SIZE by {
        lemma_stored_page_len(t.pager, q);
    }
    assert forall|q: int| 0 <= q < TABLE_MAX_PAGES implies #[trigger] t.scanned().pager.page(q)
        == t.pager.page(q) by {}
    assert(t.scanned().rows() =~= t.rows());
}

} // verus!
