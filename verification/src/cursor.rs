//! The cursor: a position in a table.
//!
//! A cursor holds its table for as long as it lives, so that no second cursor
//! can stand on the same table. It starts at the first row or behind the last,
//! moves forward one row at a time, and never moves back.

use vstd::prelude::*;
use crate::layout::row_offset;
use crate::layout::row_page;
use crate::layout::ROWS_PER_PAGE;
use crate::layout::ROW_SIZE;
use crate::layout::TABLE_MAX_ROWS;
use crate::table::Table;

verus! {

/// A position in a table: the table, the number of the row the cursor stands
/// on, and whether that is the place behind the last row.
pub struct Cursor<'a> {
    pub table: &'a mut Table,
    pub rowno: usize,
    pub end_of_table: bool,
}

impl<'a> Cursor<'a> {
    /// The table is well formed, the cursor stands on a row or behind the
    /// last one, and `end_of_table` says which.
    pub open spec fn wf(&self) -> bool {
        &&& self.table@.wf()
        &&& self.rowno <= self.table@.nrows
        &&& self.end_of_table == (self.rowno == self.table@.nrows)
    }

    /// A cursor on the first row of `table`.
    pub fn from_start(table: &'a mut Table) -> (cursor: Cursor<'a>)
        ensures
            cursor.rowno == 0,
            cursor.end_of_table == (old(table)@.nrows == 0),
            *cursor.table == *old(table),
            *final(cursor.table) == *final(table),
            old(table)@.wf() ==> cursor.wf(),
    {
        let nrows: usize = table.nrows;
        Cursor { table, rowno: 0, end_of_table: nrows == 0 }
    }

    /// A cursor behind the last row of `table`: the place of the next row.
    pub fn from_end(table: &'a mut Table) -> (cursor: Cursor<'a>)
        ensures
            cursor.rowno == old(table)@.nrows,
            cursor.end_of_table,
            *cursor.table == *old(table),
            *final(cursor.table) == *final(table),
            old(table)@.wf() ==> cursor.wf(),
    {
        let nrows: usize = table.nrows;
        Cursor { table, rowno: nrows, end_of_table: true }
    }

    /// Moves the cursor to the next row.
    pub fn advance(&mut self)
        requires
            old(self).rowno < old(self).table@.nrows,
        ensures
            final(self).rowno == old(self).rowno + 1,
            final(self).end_of_table == (final(self).rowno == old(self).table@.nrows),
            *final(self).table == *old(self).table,
            *final(final(self).table) == *final(old(self).table),
            old(self).wf() ==> final(self).wf(),
    {
        self.rowno += 1;
        self.end_of_table = self.rowno == self.table.nrows;
    }
}

/// The page and the byte offset in that page at which the row under the
/// cursor lives. The page is materialized on the way.
pub fn cursor_value(cursor: &mut Cursor) -> (place: (usize, usize))
    requires
        old(cursor).table@.wf(),
        old(cursor).rowno < TABLE_MAX_ROWS,
    ensures
        place.0 == row_page(old(cursor).rowno as int),
        place.1 == row_offset(old(cursor).rowno as int),
        final(cursor).rowno == old(cursor).rowno,
        final(cursor).end_of_table == old(cursor).end_of_table,
        final(cursor).table@ == old(cursor).table@.located(old(cursor).rowno as int),
        final(cursor).table@.wf(),
        *final(final(cursor).table) == *final(old(cursor).table),
        old(cursor).wf() ==> final(cursor).wf(),
{
    let page_num: usize = cursor.rowno / ROWS_PER_PAGE;
    cursor.table.pager.allocate_page(page_num);
    let row_offset: usize = cursor.rowno % ROWS_PER_PAGE;
    (page_num, row_offset * ROW_SIZE)
}

} // verus!
