//! An in-memory table store with a line-oriented statement front end.
//!
//! - `sql` parses a batch of `;`-separated statements (`create table`,
//!   `insert into`, `select`, `drop table`) into typed statements.
//! - `storage` holds the tables and rows and performs one operation per
//!   statement, leaving the database as it was when the operation fails.
//! - `executor` runs statements, and batches of them, against the storage.
//! - `repl` and `shell` turn one input line into a command and the command
//!   into the text to print; `render` gives results and errors as text.
//! - `text` holds the character-level helpers the parser is built from.
pub mod text;
pub mod sql;
pub mod storage;
pub mod executor;
pub mod render;
pub mod repl;
pub mod shell;
