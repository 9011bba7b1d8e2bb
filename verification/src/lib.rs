//! A single-table store with a fixed schema.
//!
//! A row has an identifier, a username and an email, and is kept in 291 bytes.
//! Rows are packed fourteen to a page of 4096 bytes; a table has a hundred
//! pages. A pager materializes pages on first touch from the image of the
//! backing file, and writes them back when the table is closed. Statements
//! reach rows through a cursor.
//!
//! The library does no input or output. Whoever uses it loads the image of
//! the file before opening a table, and stores it after closing.

pub mod layout;
pub mod row;
pub mod statement;
pub mod file;
pub mod pager;
pub mod table;
pub mod cursor;
pub mod executor;
pub mod order;
pub mod persistence;
pub mod meta;
