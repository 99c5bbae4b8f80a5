//! `UPDATE <table> SET <column> = <value> [, ...] [WHERE <condition>]`.

use crate::error::ErrorType;
use crate::condition::owned_headers;
use crate::extras::{
    cleaned_all, cleaned_values, column_of, condition_of, find_column, find_from, first_from,
    get_condition_columns,
};
use crate::fields::{join, join_line, split, split_line};
use crate::table::{data_of, first_fault, headers_of, match_lines, meets, read_headers};
use crate::utils::insert_query::{
    generate_row_to_insert, inserted_row, lemma_values_suffice, values_suffice, write_csv,
};
use crate::query::{CommandParser, Query, QueryView};
use crate::text::same_text;
use vstd::prelude::*;
use vstd::string::*;

verus! {

broadcast use vstd::string::group_string_axioms;

/// A parsed `UPDATE`: the table, the columns that are assigned, their new
/// values, one for each column, and the condition that picks the rows.
#[derive(Debug)]
pub struct UpdateQuery {
    pub table_name: String,
    pub columns: Vec<String>,
    pub values: Vec<String>,
    pub condition: Vec<String>,
}

/// What an [`UpdateQuery`] holds.
pub struct UpdateQueryView {
    pub table_name: Seq<char>,
    pub columns: Seq<Seq<char>>,
    pub values: Seq<Seq<char>>,
    pub condition: Seq<Seq<char>>,
}

impl View for UpdateQuery {
    type V = UpdateQueryView;

    open spec fn view(&self) -> UpdateQueryView {
        UpdateQueryView {
            table_name: self.table_name@,
            columns: self.columns.deep_view(),
            values: self.values.deep_view(),
            condition: self.condition.deep_view(),
        }
    }
}

/// Whether an assignment stands at `i`: an `=` with a token on either side.
pub open spec fn assigns_at(tokens: Seq<Seq<char>>, i: int) -> bool {
    1 <= i && i + 1 < tokens.len() && tokens[i] == "="@
}

/// The targets of the assignments from `i` on: the token before each `=`,
/// up to the first `where`. The scan goes on behind the value of an
/// assignment.
pub open spec fn assigned_columns(tokens: Seq<Seq<char>>, i: int) -> Seq<Seq<char>>
    decreases tokens.len() - i,
{
    if i < 0 || i >= tokens.len() {
        Seq::empty()
    } else if assigns_at(tokens, i) {
        seq![tokens[i - 1]] + assigned_columns(tokens, i + 2)
    } else if tokens[i] == "where"@ {
        Seq::empty()
    } else {
        assigned_columns(tokens, i + 1)
    }
}

/// The values of the assignments from `i` on: the token behind each `=`, up
/// to the first `where`.
pub open spec fn assigned_values(tokens: Seq<Seq<char>>, i: int) -> Seq<Seq<char>>
    decreases tokens.len() - i,
{
    if i < 0 || i >= tokens.len() {
        Seq::empty()
    } else if assigns_at(tokens, i) {
        seq![tokens[i + 1]] + assigned_values(tokens, i + 2)
    } else if tokens[i] == "where"@ {
        Seq::empty()
    } else {
        assigned_values(tokens, i + 1)
    }
}

/// Where the assignments of an `UPDATE` start: behind the first `set`, or
/// behind the first token where there is no `set`.
pub open spec fn assignments_start(tokens: Seq<Seq<char>>) -> int {
    if first_from(tokens, "set"@, 0) < tokens.len() {
        first_from(tokens, "set"@, 0) + 1
    } else {
        1
    }
}

/// The grammar of `UPDATE`.
pub struct UpdateParser;

impl CommandParser for UpdateParser {
    /// At least four tokens, the first `update`, a `set`, and behind it,
    /// before the next `where`, an `=` that is not the last token.
    open spec fn accepts(&self, tokens: Seq<Seq<char>>) -> bool {
        let set_at = first_from(tokens, "set"@, 0);
        &&& tokens.len() >= 4
        &&& tokens[0] == "update"@
        &&& set_at < tokens.len()
        &&& exists|i: int|
            set_at < i < first_from(tokens, "where"@, set_at + 1) && #[trigger] assigns_at(
                tokens,
                i,
            )
    }

    /// A token follows the first `update`.
    open spec fn parses(&self, tokens: Seq<Seq<char>>) -> bool {
        first_from(tokens, "update"@, 0) + 1 < tokens.len()
    }

    /// The table is the token behind the first `update`; columns and values
    /// are the cleaned sides of the assignments; the condition is the
    /// cleaned tokens behind the first `where`.
    open spec fn parsed(&self, tokens: Seq<Seq<char>>) -> QueryView {
        QueryView::Update(
            UpdateQueryView {
                table_name: tokens[first_from(tokens, "update"@, 0) + 1],
                columns: cleaned_all(assigned_columns(tokens, assignments_start(tokens))),
                values: cleaned_all(assigned_values(tokens, assignments_start(tokens))),
                condition: cleaned_all(condition_of(tokens)),
            },
        )
    }

    fn validate_syntax(&self, parsed_query: &[String]) -> (r: Result<(), ErrorType>) {
        let n: usize = parsed_query.len();
        if n < 4 || !same_text(parsed_query[0].as_str(), "update") {
            return Err(ErrorType::InvalidSyntax);
        }
        let set_index = find_from(parsed_query, "set", 0);
        if set_index >= n {
            return Err(ErrorType::InvalidSyntax);
        }
        let stop = find_from(parsed_query, "where", set_index + 1);
        let ghost tokens = parsed_query.deep_view();
        let mut i: usize = set_index + 1;
        while i < stop
            invariant
                set_index < i,
                stop <= n,
                n == parsed_query.len(),
                tokens == parsed_query.deep_view(),
                n >= 4,
                tokens[0] == "update"@,
                set_index == first_from(tokens, "set"@, 0),
                stop == first_from(tokens, "where"@, set_index + 1),
                forall|j: int| set_index < j < i ==> !assigns_at(tokens, j),
            decreases stop - i,
        {
            if same_text(parsed_query[i].as_str(), "=") && i + 1 < n {
                assert(assigns_at(tokens, i as int));
                return Ok(());
            }
            i = i + 1;
        }
        Err(ErrorType::InvalidSyntax)
    }

    fn parse(&self, parsed_query: Vec<String>) -> (r: Result<Query, ErrorType>) {
        let table_name = match extract_table_name(parsed_query.as_slice()) {
            Ok(table_name) => table_name,
            Err(e) => {
                return Err(e);
            },
        };
        let found = find_from(parsed_query.as_slice(), "set", 0);
        let set_index: usize = if found < parsed_query.len() {
            found
        } else {
            0
        };
        let (columns, values) = extract_columns_and_values(
            parsed_query.as_slice(),
            set_index + 1,
        );
        let condition = cleaned_values(get_condition_columns(parsed_query.as_slice()));
        Ok(Query::Update(UpdateQuery { table_name, columns, values, condition }))
    }
}

/// The table of an `UPDATE`: the token behind the first `update`. A syntax
/// error where no token stands there.
pub fn extract_table_name(parsed_query: &[String]) -> (r: Result<String, ErrorType>)
    ensures
        match r {
            Ok(name) => {
                let at = first_from(parsed_query.deep_view(), "update"@, 0) + 1;
                at < parsed_query.len() && name@ == parsed_query.deep_view()[at]
            },
            Err(e) => first_from(parsed_query.deep_view(), "update"@, 0) + 1
                >= parsed_query.len() && e == ErrorType::InvalidSyntax,
        },
{
    let index = find_from(parsed_query, "update", 0);
    if index >= parsed_query.len() || index + 1 >= parsed_query.len() {
        return Err(ErrorType::InvalidSyntax);
    }
    Ok(parsed_query[index + 1].clone())
}

/// The two sides of the assignments from `start_index` on, cleaned.
pub fn extract_columns_and_values(parsed_query: &[String], start_index: usize) -> (r: (
    Vec<String>,
    Vec<String>,
))
    ensures
        r.0.deep_view() == cleaned_all(
            assigned_columns(parsed_query.deep_view(), start_index as int),
        ),
        r.1.deep_view() == cleaned_all(
            assigned_values(parsed_query.deep_view(), start_index as int),
        ),
{
    let mut columns: Vec<String> = Vec::new();
    let mut values: Vec<String> = Vec::new();
    let n: usize = parsed_query.len();
    let ghost tokens = parsed_query.deep_view();
    let mut i: usize = start_index;
    assert(columns.deep_view() =~= Seq::empty());
    assert(values.deep_view() =~= Seq::empty());
    while i < n
        invariant
            n == parsed_query.len(),
            tokens == parsed_query.deep_view(),
            assigned_columns(tokens, start_index as int) == columns.deep_view()
                + assigned_columns(tokens, i as int),
            assigned_values(tokens, start_index as int) == values.deep_view() + assigned_values(
                tokens,
                i as int,
            ),
        decreases n - i,
    {
        let ghost columns_before = columns.deep_view();
        let ghost values_before = values.deep_view();
        if i >= 1 && i + 1 < n && same_text(parsed_query[i].as_str(), "=") {
            columns.push(parsed_query[i - 1].clone());
            values.push(parsed_query[i + 1].clone());
            proof {
                assert(assigns_at(tokens, i as int));
                assert(columns.deep_view() =~= columns_before.push(tokens[i - 1]));
                assert(values.deep_view() =~= values_before.push(tokens[i + 1]));
                assert(columns_before + (seq![tokens[i - 1]] + assigned_columns(tokens, i + 2))
                    =~= columns_before.push(tokens[i - 1]) + assigned_columns(tokens, i + 2));
                assert(values_before + (seq![tokens[i + 1]] + assigned_values(tokens, i + 2))
                    =~= values_before.push(tokens[i + 1]) + assigned_values(tokens, i + 2));
            }
            i = i + 2;
        } else if same_text(parsed_query[i].as_str(), "where") {
            proof {
                assert(!assigns_at(tokens, i as int));
                assert(columns_before + Seq::<Seq<char>>::empty() =~= columns_before);
                assert(values_before + Seq::<Seq<char>>::empty() =~= values_before);
            }
            return (cleaned_values(columns), cleaned_values(values));
        } else {
            assert(!assigns_at(tokens, i as int));
            i = i + 1;
        }
    }
    proof {
        assert(columns.deep_view() + Seq::<Seq<char>>::empty() =~= columns.deep_view());
        assert(values.deep_view() + Seq::<Seq<char>>::empty() =~= values.deep_view());
    }
    (cleaned_values(columns), cleaned_values(values))
}

/// The row that an `UPDATE` makes of a row: one field for each header.
/// Under a header that a column of the list names stands the new value of
/// the first such column; under any other header the old field.
pub open spec fn updated_row(
    headers: Seq<Seq<char>>,
    columns: Seq<Seq<char>>,
    values_to_update: Seq<Seq<char>>,
    values: Seq<Seq<char>>,
) -> Seq<Seq<char>> {
    Seq::new(
        headers.len(),
        |p: int|
            match column_of(columns, headers[p]) {
                Some(c) => values_to_update[c],
                None => values[p],
            },
    )
}

/// Builds the updated row against a header held as strings.
pub fn updated_line(
    headers: &Vec<String>,
    columns: &Vec<String>,
    values_to_update: &[String],
    values: &[String],
) -> (row: Vec<String>)
    requires
        values_suffice(headers.deep_view(), columns.deep_view(), values_to_update.len() as int),
        values.len() >= headers.len(),
    ensures
        row.deep_view() == updated_row(
            headers.deep_view(),
            columns.deep_view(),
            values_to_update.deep_view(),
            values.deep_view(),
        ),
{
    let mut row_to_insert: Vec<String> = Vec::new();
    let n: usize = headers.len();
    let ghost names = headers.deep_view();
    let ghost wanted = columns.deep_view();
    let ghost given = values_to_update.deep_view();
    let ghost fields = values.deep_view();
    let mut p: usize = 0;
    while p < n
        invariant
            p <= n,
            n == headers.len(),
            n <= values.len(),
            names == headers.deep_view(),
            wanted == columns.deep_view(),
            given == values_to_update.deep_view(),
            fields == values.deep_view(),
            values_suffice(names, wanted, values_to_update.len() as int),
            row_to_insert.len() == p,
            forall|k: int|
                0 <= k < p ==> #[trigger] row_to_insert[k]@ == updated_row(
                    names,
                    wanted,
                    given,
                    fields,
                )[k],
        decreases n - p,
    {
        let field = match find_column(columns.as_slice(), headers[p].as_str()) {
            Some(n_value) => {
                assert(column_of(wanted, names[p as int]) is Some);
                values_to_update[n_value].clone()
            },
            None => values[p].clone(),
        };
        row_to_insert.push(field);
        p = p + 1;
    }
    assert(row_to_insert.deep_view() =~= updated_row(names, wanted, given, fields));
    row_to_insert
}

/// Builds the updated row: the old fields, with the new values in place
/// of those under the targeted headers.
pub fn create_updated_line(
    headers: &[&str],
    columns: &Vec<String>,
    values_to_update: &[String],
    values: &[String],
) -> (row: Vec<String>)
    requires
        values_suffice(headers.deep_view(), columns.deep_view(), values_to_update.len() as int),
        values.len() >= headers.len(),
    ensures
        row.deep_view() == updated_row(
            headers.deep_view(),
            columns.deep_view(),
            values_to_update.deep_view(),
            values.deep_view(),
        ),
{
    let headers_vec = owned_headers(headers);
    updated_line(&headers_vec, columns, values_to_update, values)
}

/// The line that a row makes, or the empty line where there is no row.
pub open spec fn line_of(row: Option<&Vec<String>>) -> Seq<char> {
    match row {
        Some(fields) => join(fields.deep_view(), ','),
        None => Seq::empty(),
    }
}

/// Puts a row, as a line, in the place of one line of a table. A position
/// behind the last line changes nothing.
pub fn update_line(table: &mut Vec<String>, line_index: usize, row: Option<&Vec<String>>)
    ensures
        final(table).len() == old(table).len(),
        final(table).deep_view() == if line_index < old(table).len() {
            old(table).deep_view().update(line_index as int, line_of(row))
        } else {
            old(table).deep_view()
        },
{
    if line_index < table.len() {
        let updated_line = match row {
            Some(fields) => join_line(fields),
            None => String::new(),
        };
        table.set(line_index, updated_line);
        assert(table.deep_view() =~= old(table).deep_view().update(
            line_index as int,
            line_of(row),
        ));
    }
}

/// Whether every line that meets the condition has a field under every
/// header.
pub open spec fn rows_suffice(
    lines: Seq<Seq<char>>,
    condition: Seq<Seq<char>>,
    headers: Seq<Seq<char>>,
) -> bool {
    forall|i: int|
        0 <= i < lines.len() && meets(#[trigger] lines[i], condition, headers) ==> split(
            lines[i],
            ',',
        ).len() >= headers.len()
}

/// The fault that keeps the lines of a table from being rewritten under a
/// header: columns and values differ in number, the condition cannot be
/// decided of some line, or a line that meets it has fewer fields than
/// the header.
pub open spec fn rewrite_fault(
    table: Seq<Seq<char>>,
    headers: Seq<Seq<char>>,
    query: UpdateQueryView,
) -> Option<ErrorType> {
    let lines = data_of(table);
    if query.columns.len() != query.values.len() {
        Some(ErrorType::InvalidSyntax)
    } else if first_fault(lines, query.condition, headers) is Some {
        first_fault(lines, query.condition, headers)
    } else if !rows_suffice(lines, query.condition, headers) {
        Some(ErrorType::Error)
    } else {
        None
    }
}

/// The fault that keeps an `UPDATE` from being carried out: columns and
/// values differ in number; or, where there is a condition, the lines
/// cannot be rewritten under the header of the table.
pub open spec fn update_fault(table: Seq<Seq<char>>, query: UpdateQueryView) -> Option<ErrorType> {
    if query.columns.len() != query.values.len() {
        Some(ErrorType::InvalidSyntax)
    } else if query.condition.len() == 0 {
        None
    } else {
        rewrite_fault(table, headers_of(table), query)
    }
}

/// The line that an `UPDATE` makes of a line.
pub open spec fn updated_text(
    line: Seq<char>,
    headers: Seq<Seq<char>>,
    query: UpdateQueryView,
) -> Seq<char> {
    join(updated_row(headers, query.columns, query.values, split(line, ',')), ',')
}

/// The table once its lines are rewritten under a header: every data line
/// that meets the condition is replaced by its updated line; the first
/// line and all other lines stay as they are.
pub open spec fn rewritten(
    table: Seq<Seq<char>>,
    headers: Seq<Seq<char>>,
    query: UpdateQueryView,
) -> Seq<Seq<char>> {
    Seq::new(
        table.len(),
        |i: int|
            if i >= 1 && meets(table[i], query.condition, headers) {
                updated_text(table[i], headers, query)
            } else {
                table[i]
            },
    )
}

/// The table after an `UPDATE`. With a condition its lines are rewritten
/// under its header; without one a line is added, as by an `INSERT` of the
/// assigned values.
pub open spec fn updated(table: Seq<Seq<char>>, query: UpdateQueryView) -> Seq<Seq<char>> {
    if query.condition.len() == 0 {
        table.push(join(inserted_row(headers_of(table), query.columns, query.values), ','))
    } else {
        rewritten(table, headers_of(table), query)
    }
}

/// Rewrites, under the given header, the data lines of a table that meet
/// the condition of an `UPDATE`. On a fault the table is left as it was.
pub fn update_rows(table: &mut Vec<String>, headers: &Vec<String>, query: &UpdateQuery) -> (r:
    Result<(), ErrorType>)
    ensures
        match r {
            Ok(_) => {
                &&& rewrite_fault(old(table).deep_view(), headers.deep_view(), query@) is None
                &&& final(table).deep_view() == rewritten(
                    old(table).deep_view(),
                    headers.deep_view(),
                    query@,
                )
            },
            Err(e) => {
                &&& rewrite_fault(old(table).deep_view(), headers.deep_view(), query@) == Some(e)
                &&& *final(table) == *old(table)
            },
        },
{
    if query.columns.len() != query.values.len() {
        return Err(ErrorType::InvalidSyntax);
    }
    let flags = match match_lines(table, query.condition.as_slice(), headers) {
        Ok(flags) => flags,
        Err(e) => {
            return Err(e);
        },
    };
    let n: usize = flags.len();
    let ghost before = table.deep_view();
    let ghost lines = data_of(before);
    let ghost names = headers.deep_view();
    let ghost condition = query@.condition;
    let mut rows: Vec<Option<Vec<String>>> = Vec::new();
    let mut i: usize = 0;
    proof {
        lemma_values_suffice(names, query@.columns, query@.values.len() as int);
    }
    while i < n
        invariant
            i <= n,
            n == flags.len(),
            n == lines.len(),
            before == table.deep_view(),
            lines == data_of(before),
            names == headers.deep_view(),
            condition == query@.condition,
            query@.columns.len() == query@.values.len(),
            values_suffice(names, query@.columns, query@.values.len() as int),
            first_fault(lines, condition, names) is None,
            forall|k: int|
                0 <= k < flags.len() ==> flags[k] == meets(#[trigger] lines[k], condition, names),
            rows.len() == i,
            forall|k: int|
                0 <= k < i && meets(#[trigger] lines[k], condition, names) ==> split(
                    lines[k],
                    ',',
                ).len() >= names.len(),
            forall|k: int|
                0 <= k < i ==> match #[trigger] rows[k] {
                    Some(row) => meets(lines[k], condition, names) && row.deep_view()
                        == updated_row(
                        names,
                        query@.columns,
                        query@.values,
                        split(lines[k], ','),
                    ),
                    None => !meets(lines[k], condition, names),
                },
        decreases n - i,
    {
        if flags[i] {
            let values = split_line(table[i + 1].as_str(), ',');
            assert(lines[i as int] == table[i + 1]@);
            if values.len() < headers.len() {
                assert(meets(lines[i as int], condition, names));
                assert(split(lines[i as int], ',').len() < names.len());
                return Err(ErrorType::Error);
            }
            let updated_line = updated_line(
                headers,
                &query.columns,
                query.values.as_slice(),
                values.as_slice(),
            );
            rows.push(Some(updated_line));
        } else {
            rows.push(None);
        }
        i = i + 1;
    }
    let mut k: usize = 0;
    while k < n
        invariant
            k <= n,
            n == rows.len(),
            n == lines.len(),
            before.len() == table.len(),
            n > 0 ==> table.len() == n + 1,
            lines == data_of(before),
            names == headers.deep_view(),
            condition == query@.condition,
            forall|j: int|
                0 <= j < n ==> match #[trigger] rows[j] {
                    Some(row) => meets(lines[j], condition, names) && row.deep_view()
                        == updated_row(
                        names,
                        query@.columns,
                        query@.values,
                        split(lines[j], ','),
                    ),
                    None => !meets(lines[j], condition, names),
                },
            forall|j: int|
                0 <= j < table.len() ==> #[trigger] table.deep_view()[j] == if j <= k {
                    rewritten(before, names, query@)[j]
                } else {
                    before[j]
                },
        decreases n - k,
    {
        match &rows[k] {
            Some(row) => {
                assert(lines[k as int] == before[k + 1]);
                update_line(table, k + 1, Some(row));
            },
            None => {
                assert(lines[k as int] == before[k + 1]);
            },
        }
        k = k + 1;
    }
    assert(table.deep_view() =~= rewritten(before, names, query@));
    Ok(())
}

/// Runs an `UPDATE` on a table. With a condition, every data line that
/// meets it is rewritten with the assigned values; without one, a line of
/// the assigned values is added. On a fault the table is left as it was.
pub fn update(table: &mut Vec<String>, query: &UpdateQuery) -> (r: Result<(), ErrorType>)
    ensures
        match r {
            Ok(_) => {
                &&& update_fault(old(table).deep_view(), query@) is None
                &&& final(table).deep_view() == updated(old(table).deep_view(), query@)
            },
            Err(e) => update_fault(old(table).deep_view(), query@) == Some(e) && *final(table)
                == *old(table),
        },
{
    if query.columns.len() != query.values.len() {
        return Err(ErrorType::InvalidSyntax);
    }
    let headers = read_headers(table);
    if query.condition.len() == 0 {
        proof {
            lemma_values_suffice(
                headers.deep_view(),
                query.columns.deep_view(),
                query.values.len() as int,
            );
        }
        let row_to_insert = generate_row_to_insert(
            headers.as_slice(),
            &query.columns,
            query.values.as_slice(),
        );
        write_csv(table, Some(row_to_insert));
        return Ok(());
    }
    update_rows(table, &headers, query)
}

} // verus!
