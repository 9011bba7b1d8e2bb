//! What a run of inserts does to a table: the rows keep the order in which
//! they were inserted, and the table takes no more rows than it has room for.

use vstd::prelude::*;
use crate::file::FileData;
use crate::layout::lemma_layout_constants;
use crate::layout::row_offset;
use crate::layout::row_page;
use crate::layout::PAGE_SIZE;
use crate::layout::ROWS_PER_PAGE;
use crate::layout::ROW_SIZE;
use crate::layout::TABLE_MAX_PAGES;
use crate::layout::TABLE_MAX_ROWS;
use crate::pager::lemma_allocate_page;
use crate::pager::lemma_stored_page_len;
use crate::row::encode_row;
use crate::row::lemma_round_trip;
use crate::row::overwrite;
use crate::row::RowData;
use crate::statement::StatementData;
use crate::statement::StatementKind;
use crate::table::TableData;

verus! {

/// Every row of `rows` fits its slots.
pub open spec fn all_fit(rows: Seq<RowData>) -> bool {
    forall|i: int| 0 <= i < rows.len() ==> (#[trigger] rows[i]).fits()
}

/// The rows of `rows` as they read back once written.
pub open spec fn stored_rows(rows: Seq<RowData>) -> Seq<RowData> {
    rows.map_values(|row: RowData| row.stored())
}

/// The statement that inserts `row`.
pub open spec fn insert_of(row: RowData) -> StatementData {
    StatementData { kind: StatementKind::Insert, row_to_insert: Some(row) }
}

/// The statement that selects.
pub open spec fn select_all() -> StatementData {
    StatementData { kind: StatementKind::Select, row_to_insert: None }
}

impl TableData {
    /// The padding of every page is zero: the 22 bytes behind its fourteen
    /// rows.
    pub open spec fn padding_is_zero(self) -> bool {
        forall|q: int, i: int|
            0 <= q < TABLE_MAX_PAGES && ROWS_PER_PAGE * ROW_SIZE <= i < PAGE_SIZE
                ==> #[trigger] self.pager.page(q)[i] == 0
    }

    /// The table once each row of `rows` has been appended, in order.
    pub open spec fn insert_all(self, rows: Seq<RowData>) -> TableData
        decreases rows.len(),
    {
        if rows.len() == 0 {
            self
        } else {
            self.insert_all(rows.drop_last()).insert(rows.last())
        }
    }
}

/// An insert into a table that has room keeps the table well formed, leaves
/// the file and every other page as they were, and puts the row, as it reads
/// back, behind the rows that were there.
pub proof fn lemma_insert(t: TableData, row: RowData)
    requires
        t.wf(),
        !t.is_full(),
        row.fits(),
    ensures
        t.insert(row).wf(),
        t.insert(row).nrows == t.nrows + 1,
        t.insert(row).rows() == t.rows().push(row.stored()),
        t.insert(row).pager.file == t.pager.file,
        t.insert(row).pager.is_materialized(row_page(t.nrows as int)),
        forall|q: int|
            0 <= q < TABLE_MAX_PAGES && q != row_page(t.nrows as int) ==> t.insert(
                row,
            ).pager.slots[q] == t.pager.slots[q],
        forall|q: int|
            0 <= q < TABLE_MAX_PAGES ==> #[trigger] t.insert(row).pager.page(q) == if q
                == row_page(t.nrows as int) {
                overwrite(
                    t.pager.page(row_page(t.nrows as int)),
                    row_offset(t.nrows as int),
                    encode_row(row),
                )
            } else {
                t.pager.page(q)
            },
{
    lemma_layout_constants();
    let n = t.nrows as int;
    let p = row_page(n);
    let o = row_offset(n);
    let after = t.insert(row);
    let located = t.pager.allocate_page(p);
    lemma_allocate_page(t.pager, p);
    lemma_stored_page_len(t.pager, p);
    lemma_round_trip(row);
    let page = located.slots[p];
    let written = overwrite(page, o, encode_row(row));
    assert(page == t.pager.page(p));
    assert(page.len() == PAGE_SIZE);
    assert(0 <= n % 14 < 14);
    assert(0 <= o && o + ROW_SIZE <= PAGE_SIZE);
    assert(encode_row(row).len() == ROW_SIZE);
    assert(written.len() == PAGE_SIZE);
    assert(after.pager.slots[p] == written);
    assert(written.subrange(o, o + ROW_SIZE) =~= encode_row(row));
    assert forall|r: int| 0 <= r < n implies after.row(r) == t.row(r) by {
        let q = row_page(r);
        if q == p {
            assert(r % 14 < n % 14);
            assert(0 <= row_offset(r) && row_offset(r) + ROW_SIZE <= o);
            assert(t.pager.page(q) == page);
            assert(after.pager.page(q) == written);
            assert(after.row_bytes(r) =~= t.row_bytes(r));
        } else {
            assert(after.pager.page(q) == t.pager.page(q));
        }
    }
    assert(after.rows() =~= t.rows().push(row.stored()));
}

/// An insert keeps the padding of every page: the 22 bytes behind the
/// fourteen rows of a page are what they were, so that padding that is zero
/// stays zero.
pub proof fn lemma_insert_keeps_padding(t: TableData, row: RowData)
    requires
        t.wf(),
        !t.is_full(),
        row.fits(),
    ensures
        forall|q: int, i: int|
            0 <= q < TABLE_MAX_PAGES && ROWS_PER_PAGE * ROW_SIZE <= i < PAGE_SIZE
                ==> #[trigger] t.insert(row).pager.page(q)[i] == t.pager.page(q)[i],
        t.padding_is_zero() ==> t.insert(row).padding_is_zero(),
{
    lemma_layout_constants();
    lemma_insert(t, row);
    lemma_round_trip(row);
    let n = t.nrows as int;
    assert(0 <= n % 14 < 14);
    assert(0 <= row_offset(n) && row_offset(n) + ROW_SIZE <= ROWS_PER_PAGE * ROW_SIZE);
    assert forall|q: int| 0 <= q < TABLE_MAX_PAGES implies (#[trigger] t.pager.page(q)).len()
        == PAGE_SIZE by {
        lemma_stored_page_len(t.pager, q);
    }
}

/// A run of inserts adds as many rows as it has.
pub proof fn lemma_insert_all_count(t: TableData, rows: Seq<RowData>)
    ensures
        t.insert_all(rows).nrows == t.nrows + rows.len(),
    decreases rows.len(),
{
    if rows.len() > 0 {
        lemma_insert_all_count(t, rows.drop_last());
    }
}

/// After a run of inserts for which the table has room, a select reads the
/// rows that were there, and behind them the inserted rows, as they read
/// back, in the order in which they were inserted.
pub proof fn lemma_insertion_order(t: TableData, rows: Seq<RowData>)
    requires
        t.wf(),
        t.nrows + rows.len() <= TABLE_MAX_ROWS,
        all_fit(rows),
    ensures
        t.insert_all(rows).wf(),
        t.insert_all(rows).nrows == t.nrows + rows.len(),
        t.insert_all(rows).rows() == t.rows() + stored_rows(rows),
        t.insert_all(rows).answer(select_all()) == Ok::<Seq<RowData>, Seq<char>>(
            t.rows() + stored_rows(rows),
        ),
        t.insert_all(rows).pager.file == t.pager.file,
    decreases rows.len(),
{
    if rows.len() == 0 {
        assert(t.rows() + stored_rows(rows) =~= t.rows());
    } else {
        let front = rows.drop_last();
        lemma_insertion_order(t, front);
        lemma_insert(t.insert_all(front), rows.last());
        assert(stored_rows(rows) =~= stored_rows(front).push(rows.last().stored()));
        assert(t.rows() + stored_rows(rows) =~= (t.rows() + stored_rows(front)).push(
            rows.last().stored(),
        ));
    }
}

/// After inserts into an empty table, a select reads exactly the inserted
/// rows, as they read back, in the order in which they were inserted.
pub proof fn lemma_insertion_order_from_empty(path: Seq<char>, rows: Seq<RowData>)
    requires
        rows.len() <= TABLE_MAX_ROWS,
        all_fit(rows),
    ensures
        TableData::open(FileData { path, bytes: Seq::empty() }).insert_all(rows).rows()
            == stored_rows(rows),
{
    let empty = TableData::open(FileData { path, bytes: Seq::empty() });
    lemma_insertion_order(empty, rows);
    assert(empty.rows() + stored_rows(rows) =~= stored_rows(rows));
}

/// A table takes as many rows as it has room for and no more: once 1400
/// inserts in a row have succeeded, the table holds 1400 rows, and the next
/// insert fails with the message that the table is full and leaves the table
/// as it was.
pub proof fn lemma_capacity(t: TableData, rows: Seq<RowData>, next: RowData)
    requires
        rows.len() == TABLE_MAX_ROWS,
        forall|k: int|
            0 <= k < rows.len() ==> (#[trigger] t.insert_all(rows.take(k))).answer(
                insert_of(rows[k]),
            ) is Ok,
    ensures
        t.insert_all(rows).nrows == TABLE_MAX_ROWS,
        t.insert_all(rows).answer(insert_of(next)) == Err::<Seq<RowData>, Seq<char>>(
            "table is full"@,
        ),
        t.insert_all(rows).after(insert_of(next)) == t.insert_all(rows),
{
    lemma_layout_constants();
    let last = rows.len() - 1;
    lemma_insert_all_count(t, rows.take(last));
    lemma_insert_all_count(t, rows);
    assert(t.insert_all(rows.take(last)).answer(insert_of(rows[last])) is Ok);
}

} // verus!
