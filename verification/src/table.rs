//! Tables: a list of lines, the first of which names the columns.

use crate::condition::{condition_fault, evaluate_row, row_matches};
use crate::error::ErrorType;
use crate::fields::{split, split_line};
use crate::tokens::{strip, strip_text, Trim};
use vstd::prelude::*;
use vstd::string::*;

verus! {

broadcast use vstd::string::group_string_axioms;

/// The first line of a table, or the empty line of a table without lines.
pub open spec fn header_line(table: Seq<Seq<char>>) -> Seq<char> {
    if table.len() > 0 {
        table[0]
    } else {
        Seq::empty()
    }
}

/// The column names of a table: the fields of its first line, once the
/// whitespace around that line is stripped.
pub open spec fn headers_of(table: Seq<Seq<char>>) -> Seq<Seq<char>> {
    split(strip(header_line(table), Trim::Whitespace), ',')
}

/// The data lines of a table: all lines but the first.
pub open spec fn data_of(table: Seq<Seq<char>>) -> Seq<Seq<char>> {
    if table.len() > 0 {
        table.skip(1)
    } else {
        Seq::empty()
    }
}

/// Whether a line meets a condition: as the row of its fields does.
pub open spec fn meets(
    line: Seq<char>,
    condition: Seq<Seq<char>>,
    headers: Seq<Seq<char>>,
) -> bool {
    row_matches(split(line, ','), condition, headers)
}

/// The fault that keeps a condition from being decided of a line.
pub open spec fn line_fault(
    line: Seq<char>,
    condition: Seq<Seq<char>>,
    headers: Seq<Seq<char>>,
) -> Option<ErrorType> {
    condition_fault(condition, headers, split(line, ',').len() as int)
}

/// The fault of the first line of which a condition cannot be decided.
pub open spec fn first_fault(
    lines: Seq<Seq<char>>,
    condition: Seq<Seq<char>>,
    headers: Seq<Seq<char>>,
) -> Option<ErrorType>
    decreases lines.len(),
{
    if lines.len() == 0 {
        None
    } else if first_fault(lines.drop_last(), condition, headers) is Some {
        first_fault(lines.drop_last(), condition, headers)
    } else {
        line_fault(lines.last(), condition, headers)
    }
}

/// The lines that meet a condition, in their order.
pub open spec fn kept_of(
    lines: Seq<Seq<char>>,
    condition: Seq<Seq<char>>,
    headers: Seq<Seq<char>>,
) -> Seq<Seq<char>>
    decreases lines.len(),
{
    if lines.len() == 0 {
        Seq::empty()
    } else if meets(lines.last(), condition, headers) {
        kept_of(lines.drop_last(), condition, headers).push(lines.last())
    } else {
        kept_of(lines.drop_last(), condition, headers)
    }
}

/// Reads the column names of a table.
pub fn read_headers(table: &Vec<String>) -> (headers: Vec<String>)
    ensures
        headers.deep_view() == headers_of(table.deep_view()),
        headers.len() >= 1,
{
    if table.len() > 0 {
        let header = strip_text(table[0].as_str(), Trim::Whitespace);
        split_line(header.as_str(), ',')
    } else {
        let header = strip_text("", Trim::Whitespace);
        proof {
            reveal_strlit("");
            assert(""@ =~= Seq::<char>::empty());
        }
        split_line(header.as_str(), ',')
    }
}

/// Decides a condition of every data line of a table, or tells the fault
/// of the first line of which it cannot be decided.
pub fn match_lines(table: &Vec<String>, condition: &[String], headers: &Vec<String>) -> (r: Result<
    Vec<bool>,
    ErrorType,
>)
    ensures
        match r {
            Ok(flags) => {
                &&& first_fault(
                    data_of(table.deep_view()),
                    condition.deep_view(),
                    headers.deep_view(),
                ) is None
                &&& flags.len() == data_of(table.deep_view()).len()
                &&& forall|i: int|
                    0 <= i < flags.len() ==> flags[i] == meets(
                        #[trigger] data_of(table.deep_view())[i],
                        condition.deep_view(),
                        headers.deep_view(),
                    )
            },
            Err(e) => first_fault(
                data_of(table.deep_view()),
                condition.deep_view(),
                headers.deep_view(),
            ) == Some(e),
        },
{
    let mut flags: Vec<bool> = Vec::new();
    let n: usize = table.len();
    let ghost lines = data_of(table.deep_view());
    let ghost tokens = condition.deep_view();
    let ghost names = headers.deep_view();
    if n == 0 {
        return Ok(flags);
    }
    let mut i: usize = 1;
    assert(lines.take(0) =~= Seq::<Seq<char>>::empty());
    while i < n
        invariant
            1 <= i <= n,
            n == table.len(),
            lines == data_of(table.deep_view()),
            tokens == condition.deep_view(),
            names == headers.deep_view(),
            flags.len() == i - 1,
            first_fault(lines.take(i - 1), tokens, names) is None,
            forall|k: int|
                0 <= k < flags.len() ==> flags[k] == meets(#[trigger] lines[k], tokens, names),
        decreases n - i,
    {
        let values = split_line(table[i].as_str(), ',');
        proof {
            assert(lines.take(i as int).drop_last() =~= lines.take(i - 1));
            assert(lines.take(i as int).last() == lines[i - 1]);
            assert(lines[i - 1] == table[i as int]@);
        }
        match evaluate_row(&values, condition, headers) {
            Ok(found) => {
                flags.push(found);
            },
            Err(e) => {
                proof {
                    lemma_fault_stays(lines, tokens, names, i as int);
                }
                return Err(e);
            },
        }
        i = i + 1;
    }
    assert(lines.take(n - 1) =~= lines);
    Ok(flags)
}

/// A fault among the first lines is the fault of all the lines.
pub proof fn lemma_fault_stays(
    lines: Seq<Seq<char>>,
    condition: Seq<Seq<char>>,
    headers: Seq<Seq<char>>,
    n: int,
)
    requires
        0 <= n <= lines.len(),
        first_fault(lines.take(n), condition, headers) is Some,
    ensures
        first_fault(lines, condition, headers) == first_fault(lines.take(n), condition, headers),
    decreases lines.len() - n,
{
    if n < lines.len() {
        assert(lines.take(n + 1).drop_last() =~= lines.take(n));
        lemma_fault_stays(lines, condition, headers, n + 1);
    } else {
        assert(lines.take(n) =~= lines);
    }
}

} // verus!
