//! Sizes and offsets of the on-disk format, and the arithmetic that maps a row
//! number to its page and its byte offset inside that page.

use vstd::prelude::*;

verus! {

/// Width of the identifier column, in bytes.
pub const ROW_ID_SIZE: usize = 4;

/// Width of the username slot, in bytes.
pub const ROW_USERNAME_SIZE: usize = 32;

/// Width of the email slot, in bytes.
pub const ROW_EMAIL_SIZE: usize = 255;

/// Offset of the username slot inside an encoded row.
pub const ROW_USERNAME_START: usize = ROW_ID_SIZE;

/// Offset of the email slot inside an encoded row.
pub const ROW_EMAIL_START: usize = ROW_USERNAME_START + ROW_USERNAME_SIZE;

/// Width of an encoded row, in bytes.
pub const ROW_SIZE: usize = 291;

/// Size of a page, the unit in which the backing file is read and written.
pub const PAGE_SIZE: usize = 4096;

/// Number of page slots a pager holds.
pub const TABLE_MAX_PAGES: usize = 100;

/// Number of rows packed into one page.
pub const ROWS_PER_PAGE: usize = PAGE_SIZE / ROW_SIZE;

/// Number of rows a table can hold.
pub const TABLE_MAX_ROWS: usize = ROWS_PER_PAGE * TABLE_MAX_PAGES;

/// The derived constants have the values the format documents.
pub proof fn lemma_layout_constants()
    ensures
        ROW_SIZE == ROW_ID_SIZE + ROW_USERNAME_SIZE + ROW_EMAIL_SIZE,
        ROW_EMAIL_START == 36,
        ROWS_PER_PAGE == 14,
        TABLE_MAX_ROWS == 1400,
        ROWS_PER_PAGE * ROW_SIZE == 4074,
{
}

/// Page that holds row `r`.
pub open spec fn row_page(r: int) -> int {
    r / (ROWS_PER_PAGE as int)
}

/// Byte offset of row `r` inside its page.
pub open spec fn row_offset(r: int) -> int {
    (r % (ROWS_PER_PAGE as int)) * (ROW_SIZE as int)
}

/// Length of a file that holds exactly `n` rows: whole pages for every
/// fourteen rows, and the packed rows of the last, partial page.
pub open spec fn packed_len(n: int) -> int {
    (n / (ROWS_PER_PAGE as int)) * (PAGE_SIZE as int) + (n % (ROWS_PER_PAGE as int)) * (ROW_SIZE as int)
}

} // verus!
