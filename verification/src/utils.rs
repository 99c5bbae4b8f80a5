//! The four statements: their structured queries, their grammars and what
//! they do to a table.

pub mod delete_query;
pub mod insert_query;
pub mod select_query;
pub mod update_query;
