//! The kinds of failure that a statement can end in.

use vstd::prelude::*;
use vstd::string::*;

verus! {

/// Why a statement was not carried out.
#[derive(Debug, Clone, Copy, PartialEq, Eq, Structural)]
pub enum ErrorType {
    /// The table cannot be read or written.
    InvalidTable,
    /// A column that the statement names is not in the table.
    InvalidColumn,
    /// The statement breaks the grammar.
    InvalidSyntax,
    /// Anything else.
    Error,
}

/// The tag that a report of an error starts with.
pub open spec fn label_of(error_type: ErrorType) -> Seq<char> {
    match error_type {
        ErrorType::InvalidTable => "[INVALID_TABLE]: ["@,
        ErrorType::InvalidColumn => "[INVALID_COLUMN]: ["@,
        ErrorType::InvalidSyntax => "[INVALID_SYNTAX]: ["@,
        ErrorType::Error => "[ERROR]: ["@,
    }
}

/// The line that reports an error: the tag of its kind, then the
/// description in square brackets.
pub fn error_message(error_type: ErrorType, description: &str) -> (message: String)
    ensures
        message@ == label_of(error_type) + description@ + "]"@,
{
    let label: &str = match error_type {
        ErrorType::InvalidTable => "[INVALID_TABLE]: [",
        ErrorType::InvalidColumn => "[INVALID_COLUMN]: [",
        ErrorType::InvalidSyntax => "[INVALID_SYNTAX]: [",
        ErrorType::Error => "[ERROR]: [",
    };
    let mut message = String::from_str(label);
    message.append(description);
    message.append("]");
    message
}

} // verus!
