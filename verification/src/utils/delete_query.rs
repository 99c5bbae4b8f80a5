//! `DELETE FROM <table> [WHERE <condition>]`.

use crate::error::ErrorType;
use crate::extras::{
    cleaned_all, cleaned_values, condition_of, find_from, first_from, get_condition_columns,
};
use crate::query::{CommandParser, Query, QueryView};
use crate::table::{data_of, first_fault, headers_of, match_lines, meets, read_headers};
use crate::text::same_text;
use vstd::prelude::*;
use vstd::string::*;

verus! {

broadcast use vstd::string::group_string_axioms;

/// A parsed `DELETE`: the table, and the condition that picks the rows to remove.
#[derive(Debug)]
pub struct DeleteQuery {
    pub table_name: String,
    pub condition: Vec<String>,
}

/// What a [`DeleteQuery`] holds.
pub struct DeleteQueryView {
    pub table_name: Seq<char>,
    pub condition: Seq<Seq<char>>,
}

impl View for DeleteQuery {
    type V = DeleteQueryView;

    open spec fn view(&self) -> DeleteQueryView {
        DeleteQueryView {
            table_name: self.table_name@,
            condition: self.condition.deep_view(),
        }
    }
}

/// The grammar of `DELETE`.
pub struct DeleteParser;

impl CommandParser for DeleteParser {
    /// At least three tokens, the first two `delete from`.
    open spec fn accepts(&self, tokens: Seq<Seq<char>>) -> bool {
        tokens.len() >= 3 && tokens[0] == "delete"@ && tokens[1] == "from"@
    }

    /// A token follows the first `from`.
    open spec fn parses(&self, tokens: Seq<Seq<char>>) -> bool {
        first_from(tokens, "from"@, 0) + 1 < tokens.len()
    }

    /// The table is the token behind the first `from`; the condition is the
    /// cleaned tokens behind the first `where`.
    open spec fn parsed(&self, tokens: Seq<Seq<char>>) -> QueryView {
        QueryView::Delete(
            DeleteQueryView {
                table_name: tokens[first_from(tokens, "from"@, 0) + 1],
                condition: cleaned_all(condition_of(tokens)),
            },
        )
    }

    fn validate_syntax(&self, parsed_query: &[String]) -> (r: Result<(), ErrorType>) {
        if parsed_query.len() < 3 || !same_text(parsed_query[0].as_str(), "delete") || !same_text(
            parsed_query[1].as_str(),
            "from",
        ) {
            return Err(ErrorType::InvalidSyntax);
        }
        Ok(())
    }

    fn parse(&self, parsed_query: Vec<String>) -> (r: Result<Query, ErrorType>) {
        let index = find_from(parsed_query.as_slice(), "from", 0);
        if index >= parsed_query.len() || index + 1 >= parsed_query.len() {
            return Err(ErrorType::InvalidSyntax);
        }
        let table_name = parsed_query[index + 1].clone();
        let condition = cleaned_values(get_condition_columns(parsed_query.as_slice()));
        Ok(Query::Delete(DeleteQuery { table_name, condition }))
    }
}

/// The lines that do not meet a condition, in their order.
pub open spec fn spared(
    lines: Seq<Seq<char>>,
    condition: Seq<Seq<char>>,
    headers: Seq<Seq<char>>,
) -> Seq<Seq<char>>
    decreases lines.len(),
{
    if lines.len() == 0 {
        Seq::empty()
    } else if meets(lines.last(), condition, headers) {
        spared(lines.drop_last(), condition, headers)
    } else {
        spared(lines.drop_last(), condition, headers).push(lines.last())
    }
}

/// The table once the lines that meet a condition under a header are
/// taken out: its first line, then the data lines that do not meet the
/// condition.
pub open spec fn without_matching(
    table: Seq<Seq<char>>,
    headers: Seq<Seq<char>>,
    condition: Seq<Seq<char>>,
) -> Seq<Seq<char>> {
    if table.len() == 0 {
        table
    } else {
        seq![table[0]] + spared(data_of(table), condition, headers)
    }
}

/// The table after a `DELETE`: without the data lines that meet the
/// condition under the header of the table.
pub open spec fn deleted(table: Seq<Seq<char>>, query: DeleteQueryView) -> Seq<Seq<char>> {
    without_matching(table, headers_of(table), query.condition)
}

/// Takes one line out of a table. A position behind the last line takes
/// none out.
pub fn delete_line(table: &mut Vec<String>, line_to_delete: usize)
    ensures
        final(table).deep_view() == if line_to_delete < old(table).len() {
            old(table).deep_view().remove(line_to_delete as int)
        } else {
            old(table).deep_view()
        },
{
    if line_to_delete < table.len() {
        table.remove(line_to_delete);
        assert(table.deep_view() =~= old(table).deep_view().remove(line_to_delete as int));
    }
}

/// Takes out of a table every data line that meets the condition under
/// the given header. Where the condition cannot be decided of some line,
/// the fault of the first such line is returned and the table is left as
/// it was.
pub fn delete_rows(table: &mut Vec<String>, headers: &Vec<String>, condition: &[String]) -> (r:
    Result<(), ErrorType>)
    ensures
        match r {
            Ok(_) => {
                &&& first_fault(
                    data_of(old(table).deep_view()),
                    condition.deep_view(),
                    headers.deep_view(),
                ) is None
                &&& final(table).deep_view() == without_matching(
                    old(table).deep_view(),
                    headers.deep_view(),
                    condition.deep_view(),
                )
            },
            Err(e) => {
                &&& first_fault(
                    data_of(old(table).deep_view()),
                    condition.deep_view(),
                    headers.deep_view(),
                ) == Some(e)
                &&& *final(table) == *old(table)
            },
        },
{
    let flags = match match_lines(table, condition, headers) {
        Ok(flags) => flags,
        Err(e) => {
            return Err(e);
        },
    };
    let n: usize = flags.len();
    let ghost before = table.deep_view();
    let ghost lines = data_of(before);
    let ghost tokens = condition.deep_view();
    let ghost names = headers.deep_view();
    if n == 0 {
        assert(table.deep_view() =~= without_matching(before, names, tokens));
        return Ok(());
    }
    let mut index: usize = 0;
    let mut k: usize = 0;
    proof {
        assert(lines.take(0) =~= Seq::<Seq<char>>::empty());
        assert(lines.skip(0) =~= lines);
        assert(before =~= seq![before[0]] + Seq::<Seq<char>>::empty() + lines);
    }
    while k < n
        invariant
            k <= n,
            n == flags.len(),
            n == lines.len(),
            before.len() == n + 1,
            lines == data_of(before),
            forall|i: int|
                0 <= i < flags.len() ==> flags[i] == meets(#[trigger] lines[i], tokens, names),
            index == spared(lines.take(k as int), tokens, names).len(),
            index <= k,
            table.deep_view() == seq![before[0]] + spared(lines.take(k as int), tokens, names)
                + lines.skip(k as int),
        decreases n - k,
    {
        let ghost so_far = spared(lines.take(k as int), tokens, names);
        proof {
            assert(lines.take(k + 1).drop_last() =~= lines.take(k as int));
            assert(lines.take(k + 1).last() == lines[k as int]);
        }
        index = index + 1;
        if flags[k] {
            delete_line(table, index);
            index = index - 1;
            proof {
                assert(table.deep_view() =~= seq![before[0]] + so_far + lines.skip(k + 1));
            }
        } else {
            proof {
                assert(table.deep_view() =~= seq![before[0]] + so_far.push(lines[k as int])
                    + lines.skip(k + 1));
            }
        }
        k = k + 1;
    }
    proof {
        assert(lines.take(n as int) =~= lines);
        assert(table.deep_view() =~= without_matching(before, names, tokens));
    }
    Ok(())
}

/// Runs a `DELETE` on a table: takes out every data line that meets the
/// condition. Where the condition cannot be decided of some line, the fault
/// of the first such line is returned and the table is left as it was.
pub fn delete(table: &mut Vec<String>, delete_query: &DeleteQuery) -> (r: Result<(), ErrorType>)
    ensures
        match r {
            Ok(_) => first_fault(
                data_of(old(table).deep_view()),
                delete_query@.condition,
                headers_of(old(table).deep_view()),
            ) is None && final(table).deep_view() == deleted(old(table).deep_view(), delete_query@),
            Err(e) => first_fault(
                data_of(old(table).deep_view()),
                delete_query@.condition,
                headers_of(old(table).deep_view()),
            ) == Some(e) && *final(table) == *old(table),
        },
{
    let headers = read_headers(table);
    delete_rows(table, &headers, delete_query.condition.as_slice())
}

} // verus!
