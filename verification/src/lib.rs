//! Reads a SQLite database file held in memory and answers a small subset
//! of `SELECT` against it, without a database engine.
//!
//! - [`varint`]: the file format's variable-length integers.
//! - [`record`]: a cell's row id and column values.
//! - [`page`]: table leaf and table interior pages.
//! - [`btree`]: the walk over a table's pages, in key order.
//! - [`schema`]: the catalog on the first page.
//! - [`token`] and [`statement`]: the SQL tokenizer and parser.
//! - [`select`]: column projection, `COUNT`, and rows as text.
//! - [`dbfile`]: an open database and the queries against it.
//! - [`command`]: the commands of the command line.
//! - [`text`] and [`error`]: characters and strings, and what can go wrong.

pub mod btree;
pub mod command;
pub mod dbfile;
pub mod error;
pub mod page;
pub mod record;
pub mod schema;
pub mod select;
pub mod statement;
pub mod text;
pub mod token;
pub mod varint;
