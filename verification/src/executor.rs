//! The executor: runs a statement against a table.
//!
//! An `Insert` appends its row at the place behind the last row, unless the
//! table is full. A `Select` reads every row, from the first to the last, and
//! hands them back in that order. Rows are reached through a cursor only.

use vstd::prelude::*;
use crate::cursor::cursor_value;
use crate::cursor::Cursor;
use crate::layout::lemma_layout_constants;
use crate::layout::row_page;
use crate::layout::PAGE_SIZE;
use crate::layout::TABLE_MAX_PAGES;
use crate::layout::TABLE_MAX_ROWS;
use crate::pager::lemma_allocate_page;
use crate::pager::lemma_stored_page_len;
use crate::pager::PagerData;
use crate::row::deserialize_row;
use crate::row::lemma_round_trip;
use crate::row::serialize_row;
use crate::row::Row;
use crate::row::RowData;
use crate::statement::Statement;
use crate::statement::StatementData;
use crate::statement::StatementKind;
use crate::table::pages_in_use;
use crate::table::Table;
use crate::table::TableData;

verus! {

/// The values of a run of rows.
pub open spec fn row_views(rows: Seq<Row>) -> Seq<RowData> {
    rows.map_values(|row: Row| row@)
}

impl TableData {
    /// The table once `statement` has been executed.
    pub open spec fn after(self, statement: StatementData) -> TableData {
        match statement.kind {
            StatementKind::Insert => if self.is_full() {
                self
            } else {
                self.insert(statement.row_to_insert->0)
            },
            StatementKind::Select => self.scanned(),
        }
    }

    /// What executing `statement` answers: the rows a `Select` reads, no row
    /// for an `Insert` that found room, and the message of one that did not.
    pub open spec fn answer(self, statement: StatementData) -> Result<Seq<RowData>, Seq<char>> {
        match statement.kind {
            StatementKind::Insert => if self.is_full() {
                Err("table is full"@)
            } else {
                Ok(Seq::empty())
            },
            StatementKind::Select => Ok(self.rows()),
        }
    }
}

/// Reading row `r` after the rows before it materializes exactly the pages
/// that hold the rows up to `r`.
pub proof fn lemma_allocate_pages_step(pager: PagerData, r: int)
    requires
        pager.wf(),
        0 <= r < TABLE_MAX_ROWS,
    ensures
        pager.allocate_pages(pages_in_use(r)).wf(),
        pager.allocate_pages(pages_in_use(r)).allocate_page(row_page(r)) == pager.allocate_pages(
            pages_in_use(r + 1),
        ),
        pager.allocate_pages(pages_in_use(r + 1)).slots[row_page(r)] == pager.page(row_page(r)),
{
    lemma_layout_constants();
    let k = pages_in_use(r);
    let p = row_page(r);
    let before = pager.allocate_pages(k);
    let after = pager.allocate_pages(pages_in_use(r + 1));
    assert(0 <= p < TABLE_MAX_PAGES);
    assert(pages_in_use(r + 1) == p + 1);
    assert(k == p || k == p + 1);
    assert forall|q: int| 0 <= q < TABLE_MAX_PAGES implies (#[trigger] pager.page(q)).len()
        == PAGE_SIZE by {
        lemma_stored_page_len(pager, q);
    }
    assert(before.allocate_page(p).slots =~= after.slots);
}

/// Appends the row that `statement` carries to `table`, unless the table is
/// full.
pub fn execute_insert(statement: &Statement, table: &mut Table) -> (result: Result<
    (),
    &'static str,
>)
    requires
        old(table)@.wf(),
        statement@.row_to_insert is Some,
        statement@.row_to_insert->0.fits(),
    ensures
        old(table)@.is_full() ==> result is Err && result->Err_0@ == "table is full"@
            && final(table)@ == old(table)@,
        !old(table)@.is_full() ==> result is Ok && final(table)@ == old(table)@.insert(
            statement@.row_to_insert->0,
        ),
        final(table)@.wf(),
{
    if table.nrows >= TABLE_MAX_ROWS {
        return Err("table is full");
    }
    let ghost before = table@;
    let ghost row_data = statement@.row_to_insert->0;
    proof {
        lemma_allocate_page(before.pager, row_page(before.nrows as int));
        lemma_round_trip(row_data);
    }
    let mut cursor = Cursor::from_end(table);
    let place: (usize, usize) = cursor_value(&mut cursor);
    let page_num: usize = place.0;
    let offset: usize = place.1;
    match &statement.row_to_insert {
        Some(row) => {
            serialize_row(row, &mut cursor.table.pager.pages[page_num], offset);
        },
        None => {},
    }
    table.nrows += 1;
    assert(table@.pager.slots =~= before.insert(row_data).pager.slots);
    Ok(())
}

/// Reads every row of `table`, from the first to the last.
pub fn execute_select(statement: &Statement, table: &mut Table) -> (result: Result<
    Vec<Row>,
    &'static str,
>)
    requires
        old(table)@.wf(),
    ensures
        result is Ok,
        row_views(result->Ok_0@) == old(table)@.rows(),
        final(table)@ == old(table)@.scanned(),
        final(table)@.wf(),
{
    let ghost before = table@;
    let ghost target = *final(table);
    let mut rows: Vec<Row> = Vec::new();
    let mut cursor = Cursor::from_start(table);
    assert(cursor.table@.pager.slots =~= before.pager.allocate_pages(0).slots);
    while !cursor.end_of_table
        invariant
            before.wf(),
            cursor.wf(),
            cursor.table@.nrows == before.nrows,
            cursor.table@.pager == before.pager.allocate_pages(pages_in_use(cursor.rowno as int)),
            rows.len() == cursor.rowno,
            forall|r: int| 0 <= r < rows.len() ==> (#[trigger] rows@[r])@ == before.row(r),
            *final(cursor.table) == target,
        decreases before.nrows - cursor.rowno,
    {
        proof {
            lemma_allocate_pages_step(before.pager, cursor.rowno as int);
        }
        let place: (usize, usize) = cursor_value(&mut cursor);
        proof {
            lemma_layout_constants();
            let p = place.0 as int;
            assert(cursor.table.pager.pages@.len() == cursor.table@.pager.slots.len());
            assert(cursor.table.pager.pages@[p]@ == cursor.table@.pager.slots[p]);
            assert(cursor.table@.pager.slots[p] == before.pager.page(p));
        }
        let row = deserialize_row(&cursor.table.pager.pages[place.0], place.1);
        rows.push(row);
        cursor.advance();
    }
    assert(row_views(rows@) =~= before.rows());
    Ok(rows)
}

/// Executes `statement` on `table`.
pub fn execute_statement(statement: &Statement, table: &mut Table) -> (result: Result<
    Vec<Row>,
    &'static str,
>)
    requires
        old(table)@.wf(),
        statement@.wf(),
    ensures
        final(table)@ == old(table)@.after(statement@),
        match result {
            Ok(rows) => old(table)@.answer(statement@) == Ok::<Seq<RowData>, Seq<char>>(
                row_views(rows@),
            ),
            Err(message) => old(table)@.answer(statement@) == Err::<Seq<RowData>, Seq<char>>(
                message@,
            ),
        },
        final(table)@.wf(),
{
    match statement.kind {
        StatementKind::Insert => match execute_insert(statement, table) {
            Ok(()) => {
                let rows: Vec<Row> = Vec::new();
                assert(row_views(rows@) =~= Seq::<RowData>::empty());
                Ok(rows)
            },
            Err(message) => Err(message),
        },
        StatementKind::Select => execute_select(statement, table),
    }
}

} // verus!
