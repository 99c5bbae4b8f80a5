//! `INSERT INTO <table> (<columns>) VALUES (<values>)`.

use crate::error::ErrorType;
use crate::extras::{
    cleaned_all, cleaned_values, column_of, copy_span, find_column, find_from, first_from,
    lemma_first_from, span,
};
use crate::fields::{join, join_line};
use crate::table::{headers_of, read_headers};
use crate::query::{CommandParser, Query, QueryView};
use crate::text::same_text;
use vstd::prelude::*;
use vstd::string::*;

verus! {

broadcast use vstd::string::group_string_axioms;

/// A parsed `INSERT`: the table, the columns that get a value, and the
/// values, one for each column.
#[derive(Debug)]
pub struct InsertQuery {
    pub table_name: String,
    pub columns: Vec<String>,
    pub values: Vec<String>,
}

/// What an [`InsertQuery`] holds.
pub struct InsertQueryView {
    pub table_name: Seq<char>,
    pub columns: Seq<Seq<char>>,
    pub values: Seq<Seq<char>>,
}

impl View for InsertQuery {
    type V = InsertQueryView;

    open spec fn view(&self) -> InsertQueryView {
        InsertQueryView {
            table_name: self.table_name@,
            columns: self.columns.deep_view(),
            values: self.values.deep_view(),
        }
    }
}

/// Where the table name of an `INSERT` stands: behind `into`, where `into`
/// follows the first `insert`; at the front otherwise.
pub open spec fn insert_table_at(tokens: Seq<Seq<char>>) -> int {
    let i = first_from(tokens, "insert"@, 0);
    if i + 1 < tokens.len() && tokens[i + 1] == "into"@ {
        i + 2
    } else {
        0
    }
}

/// The grammar of `INSERT`.
pub struct InsertParser;

impl CommandParser for InsertParser {
    /// At least four tokens, the first two `insert into`, then the table, and
    /// as many tokens between the table and the first `values` as behind it.
    open spec fn accepts(&self, tokens: Seq<Seq<char>>) -> bool {
        let values_at = first_from(tokens, "values"@, 0);
        &&& tokens.len() >= 4
        &&& tokens[0] == "insert"@
        &&& tokens[1] == "into"@
        &&& 3 <= values_at < tokens.len()
        &&& values_at - 3 == tokens.len() - values_at - 1
    }

    /// The table name is there, and `values` stands behind it.
    open spec fn parses(&self, tokens: Seq<Seq<char>>) -> bool {
        insert_table_at(tokens) < first_from(tokens, "values"@, 0) < tokens.len()
    }

    /// The columns are the cleaned tokens between the table and the first
    /// `values`, the values the cleaned tokens behind it.
    open spec fn parsed(&self, tokens: Seq<Seq<char>>) -> QueryView {
        let table_at = insert_table_at(tokens);
        let values_at = first_from(tokens, "values"@, 0);
        QueryView::Insert(
            InsertQueryView {
                table_name: tokens[table_at],
                columns: cleaned_all(span(tokens, table_at + 1, values_at)),
                values: cleaned_all(span(tokens, values_at + 1, tokens.len() as int)),
            },
        )
    }

    fn validate_syntax(&self, parsed_query: &[String]) -> (r: Result<(), ErrorType>) {
        let n: usize = parsed_query.len();
        if n < 4 || !same_text(parsed_query[0].as_str(), "insert") || !same_text(
            parsed_query[1].as_str(),
            "into",
        ) {
            return Err(ErrorType::InvalidSyntax);
        }
        let value_index = find_from(parsed_query, "values", 0);
        if value_index >= n || value_index < 3 {
            return Err(ErrorType::InvalidSyntax);
        }
        let number_col: usize = value_index - 3;
        let number_val: usize = n - value_index - 1;
        if number_col != number_val {
            return Err(ErrorType::InvalidSyntax);
        }
        Ok(())
    }

    fn parse(&self, parsed_query: Vec<String>) -> (r: Result<Query, ErrorType>) {
        let n: usize = parsed_query.len();
        let mut table_index: usize = 0;
        let index = find_from(parsed_query.as_slice(), "insert", 0);
        if index < n && index + 1 < n && same_text(parsed_query[index + 1].as_str(), "into") {
            table_index = index + 2;
        }
        let value_index = find_from(parsed_query.as_slice(), "values", 0);
        if value_index >= n || table_index >= value_index {
            return Err(ErrorType::InvalidSyntax);
        }
        let table_name = parsed_query[table_index].clone();
        let values = cleaned_values(copy_span(parsed_query.as_slice(), value_index + 1, n));
        let columns = cleaned_values(
            copy_span(parsed_query.as_slice(), table_index + 1, value_index),
        );
        Ok(Query::Insert(InsertQuery { table_name, columns, values }))
    }
}

/// Whether there is a value for every column of the list that the header names.
pub open spec fn values_suffice(
    headers: Seq<Seq<char>>,
    columns: Seq<Seq<char>>,
    count: int,
) -> bool {
    forall|p: int|
        0 <= p < headers.len() && column_of(columns, #[trigger] headers[p]) is Some ==> column_of(
            columns,
            headers[p],
        )->0 < count
}

/// The row that an `INSERT` makes: one field for each header. The field is
/// the value of the first column of the list that bears the header's name,
/// and empty where no column does.
pub open spec fn inserted_row(
    headers: Seq<Seq<char>>,
    columns: Seq<Seq<char>>,
    values: Seq<Seq<char>>,
) -> Seq<Seq<char>> {
    Seq::new(
        headers.len(),
        |p: int|
            match column_of(columns, headers[p]) {
                Some(c) => values[c],
                None => Seq::empty(),
            },
    )
}

/// Where lists have equal lengths, there is a value for every column.
pub proof fn lemma_values_suffice(
    headers: Seq<Seq<char>>,
    columns: Seq<Seq<char>>,
    count: int,
)
    requires
        columns.len() <= count,
    ensures
        values_suffice(headers, columns, count),
{
    assert forall|p: int|
        0 <= p < headers.len() && column_of(
            columns,
            #[trigger] headers[p],
        ) is Some implies column_of(columns, headers[p])->0 < count by {
        lemma_first_from(columns, headers[p], 0);
    }
}

/// Builds the row to insert: the values, each under its header.
pub fn generate_row_to_insert(headers: &[String], columns: &Vec<String>, values: &[String]) -> (row:
    Vec<String>)
    requires
        values_suffice(headers.deep_view(), columns.deep_view(), values.len() as int),
    ensures
        row.deep_view() == inserted_row(
            headers.deep_view(),
            columns.deep_view(),
            values.deep_view(),
        ),
{
    let mut row_to_insert: Vec<String> = Vec::new();
    let n: usize = headers.len();
    let ghost names = headers.deep_view();
    let ghost wanted = columns.deep_view();
    let ghost given = values.deep_view();
    let mut p: usize = 0;
    while p < n
        invariant
            p <= n,
            n == headers.len(),
            names == headers.deep_view(),
            wanted == columns.deep_view(),
            given == values.deep_view(),
            values_suffice(names, wanted, values.len() as int),
            row_to_insert.len() == p,
            forall|k: int|
                0 <= k < p ==> #[trigger] row_to_insert[k]@ == inserted_row(
                    names,
                    wanted,
                    given,
                )[k],
        decreases n - p,
    {
        let field = match find_column(columns.as_slice(), headers[p].as_str()) {
            Some(n_value) => {
                assert(column_of(wanted, names[p as int]) is Some);
                values[n_value].clone()
            },
            None => String::new(),
        };
        row_to_insert.push(field);
        p = p + 1;
    }
    assert(row_to_insert.deep_view() =~= inserted_row(names, wanted, given));
    row_to_insert
}

/// Adds a row to the end of a table, as a line of its values.
pub fn write_csv(table: &mut Vec<String>, values: Option<Vec<String>>)
    ensures
        final(table).deep_view() == match values {
            Some(row) => old(table).deep_view().push(join(row.deep_view(), ',')),
            None => old(table).deep_view(),
        },
{
    match values {
        Some(row) => {
            let line = join_line(&row);
            table.push(line);
            assert(table.deep_view() =~= old(table).deep_view().push(line@));
        },
        None => {},
    }
}

/// The table after an `INSERT`: with the row added as its last line.
pub open spec fn inserted(table: Seq<Seq<char>>, query: InsertQueryView) -> Seq<Seq<char>> {
    table.push(join(inserted_row(headers_of(table), query.columns, query.values), ','))
}

/// Runs an `INSERT` on a table: adds one line, with the values under their
/// headers and the other fields empty. A syntax error, and the table as it
/// was, where columns and values differ in number.
pub fn insert(table: &mut Vec<String>, query: &InsertQuery) -> (r: Result<(), ErrorType>)
    ensures
        match r {
            Ok(_) => query@.columns.len() == query@.values.len() && final(table).deep_view()
                == inserted(old(table).deep_view(), query@),
            Err(e) => query@.columns.len() != query@.values.len() && e == ErrorType::InvalidSyntax
                && *final(table) == *old(table),
        },
{
    if query.columns.len() != query.values.len() {
        return Err(ErrorType::InvalidSyntax);
    }
    let headers = read_headers(table);
    proof {
        lemma_values_suffice(
            headers.deep_view(),
            query.columns.deep_view(),
            query.values.len() as int,
        );
    }
    let row_to_insert = generate_row_to_insert(
        headers.as_slice(),
        &query.columns,
        query.values.as_slice(),
    );
    write_csv(table, Some(row_to_insert));
    Ok(())
}

} // verus!
