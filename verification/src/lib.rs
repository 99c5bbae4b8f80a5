//! A small SQL engine over delimited text tables.
//!
//! A table is a list of lines. The first line names the columns, each
//! further line is a row, and the fields of a line are separated by commas,
//! without quoting or escaping.
//!
//! A statement (`SELECT`, `INSERT`, `UPDATE` or `DELETE`) is split at
//! whitespace into lowercase tokens ([`tokens`]), parsed into a structured
//! query ([`query`], [`utils`]) and run on the lines of a table. A `SELECT`
//! gives the lines to show; the other commands change the lines and leave
//! them untouched where they fail. Reading and writing the table's file is
//! left to the caller.
//!
//! Conditions are read strictly from left to right ([`condition`]): no
//! connective binds tighter than another. Values are integers where a
//! text writes one, and texts otherwise ([`extras`], [`text`]); texts are
//! compared without regard to case. Rows are sorted by a list of keys, and
//! rows between which the keys do not decide keep their order
//! ([`ordering`]).
//!
//! Every function states what it returns over the characters that its
//! arguments hold; [`laws`] relates the functions to each other. One
//! function of the standard library is called on trust, in [`text`]: the
//! folding of a text to lower case.

pub mod condition;
pub mod error;
pub mod extras;
pub mod fields;
pub mod laws;
pub mod operations;
pub mod ordering;
pub mod query;
pub mod table;
pub mod text;
pub mod tokens;
pub mod utils;
