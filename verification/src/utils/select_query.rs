//! `SELECT <columns> FROM <table> [WHERE <condition>] [ORDER BY <keys>]`.

use crate::error::ErrorType;
use crate::extras::{
    cleaned_all, cleaned_values, columns_of, condition_of, copy_span, find_column, find_from,
    first_from, get_columns, get_condition_columns,
};
use crate::fields::{join, join_line, split, split_line};
use crate::ordering::{
    directions_from, directions_of, key_of, keys_fit, keys_from, order_rows, read_order_by, sorted,
};
use crate::table::{data_of, first_fault, headers_of, kept_of, match_lines, meets, read_headers};
use crate::query::{CommandParser, Query, QueryView};
use crate::text::same_text;
use vstd::prelude::*;
use vstd::string::*;

verus! {

broadcast use vstd::string::group_string_axioms;

/// A parsed `SELECT`: the table, the columns to show (or `*`), the condition
/// that picks the rows, and the keys that order them.
#[derive(Debug)]
pub struct SelectQuery {
    pub table_name: String,
    pub columns: Vec<String>,
    pub condition: Vec<String>,
    pub order_by: Vec<String>,
}

/// What a [`SelectQuery`] holds.
pub struct SelectQueryView {
    pub table_name: Seq<char>,
    pub columns: Seq<Seq<char>>,
    pub condition: Seq<Seq<char>>,
    pub order_by: Seq<Seq<char>>,
}

impl View for SelectQuery {
    type V = SelectQueryView;

    open spec fn view(&self) -> SelectQueryView {
        SelectQueryView {
            table_name: self.table_name@,
            columns: self.columns.deep_view(),
            condition: self.condition.deep_view(),
            order_by: self.order_by.deep_view(),
        }
    }
}

/// Whether `by` follows the first `order` of a condition list.
pub open spec fn has_order_by(condition: Seq<Seq<char>>) -> bool {
    let at = first_from(condition, "order"@, 0);
    at + 1 < condition.len() && condition[at + 1] == "by"@
}

/// The ordering keys at the tail of a condition list: the cleaned tokens
/// behind `order by`.
pub open spec fn order_part(condition: Seq<Seq<char>>) -> Seq<Seq<char>> {
    if has_order_by(condition) {
        cleaned_all(condition.skip(first_from(condition, "order"@, 0) + 2))
    } else {
        Seq::empty()
    }
}

/// A condition list without its ordering keys: the tokens before `order by`.
pub open spec fn condition_part(condition: Seq<Seq<char>>) -> Seq<Seq<char>> {
    if has_order_by(condition) {
        condition.take(first_from(condition, "order"@, 0))
    } else {
        condition
    }
}

/// The grammar of `SELECT`.
pub struct SelectParser;

impl CommandParser for SelectParser {
    /// At least four tokens, the first `select`, and a `from` with at least
    /// one token between the two.
    open spec fn accepts(&self, tokens: Seq<Seq<char>>) -> bool {
        &&& tokens.len() >= 4
        &&& tokens[0] == "select"@
        &&& 1 < first_from(tokens, "from"@, 0) < tokens.len()
    }

    /// A token follows the first `from`.
    open spec fn parses(&self, tokens: Seq<Seq<char>>) -> bool {
        first_from(tokens, "from"@, 0) + 1 < tokens.len()
    }

    /// The table is the token behind the first `from`; the columns are the
    /// cleaned column list; the cleaned tokens behind `where` are the
    /// condition up to `order by`, and the ordering keys behind it.
    open spec fn parsed(&self, tokens: Seq<Seq<char>>) -> QueryView {
        QueryView::Select(
            SelectQueryView {
                table_name: tokens[first_from(tokens, "from"@, 0) + 1],
                columns: cleaned_all(columns_of(tokens)),
                condition: condition_part(cleaned_all(condition_of(tokens))),
                order_by: order_part(cleaned_all(condition_of(tokens))),
            },
        )
    }

    fn validate_syntax(&self, parsed_query: &[String]) -> (r: Result<(), ErrorType>) {
        if parsed_query.len() < 4 || !same_text(parsed_query[0].as_str(), "select") {
            return Err(ErrorType::InvalidSyntax);
        }
        let from_index = find_from(parsed_query, "from", 0);
        if from_index >= parsed_query.len() || from_index <= 1 {
            return Err(ErrorType::InvalidSyntax);
        }
        Ok(())
    }

    fn parse(&self, parsed_query: Vec<String>) -> (r: Result<Query, ErrorType>) {
        let table_name = match extract_table_name(parsed_query.as_slice()) {
            Ok(table_name) => table_name,
            Err(e) => {
                return Err(e);
            },
        };
        let columns = cleaned_values(get_columns(parsed_query.as_slice()));
        let mut condition = cleaned_values(get_condition_columns(parsed_query.as_slice()));
        let order_by = extract_order_by(&mut condition);
        Ok(Query::Select(SelectQuery { table_name, columns, condition, order_by }))
    }
}

/// The table of a `SELECT`: the token behind the first `from`. A syntax
/// error where no token stands there.
pub fn extract_table_name(parsed_query: &[String]) -> (r: Result<String, ErrorType>)
    ensures
        match r {
            Ok(name) => {
                let at = first_from(parsed_query.deep_view(), "from"@, 0) + 1;
                at < parsed_query.len() && name@ == parsed_query.deep_view()[at]
            },
            Err(e) => first_from(parsed_query.deep_view(), "from"@, 0) + 1 >= parsed_query.len()
                && e == ErrorType::InvalidSyntax,
        },
{
    let index = find_from(parsed_query, "from", 0);
    if index >= parsed_query.len() || index + 1 >= parsed_query.len() {
        return Err(ErrorType::InvalidSyntax);
    }
    Ok(parsed_query[index + 1].clone())
}

/// Takes the ordering keys off the tail of a condition list and returns them.
pub fn extract_order_by(condition: &mut Vec<String>) -> (order_by: Vec<String>)
    ensures
        order_by.deep_view() == order_part(old(condition).deep_view()),
        final(condition).deep_view() == condition_part(old(condition).deep_view()),
{
    let n: usize = condition.len();
    let index = find_from(condition.as_slice(), "order", 0);
    if index < n && index + 1 < n && same_text(condition[index + 1].as_str(), "by") {
        let order_by = cleaned_values(copy_span(condition.as_slice(), index + 2, n));
        condition.truncate(index);
        proof {
            let before = old(condition).deep_view();
            assert(before.subrange(index + 2, n as int) =~= before.skip(index + 2));
            assert(condition.deep_view() =~= before.take(index as int));
        }
        return order_by;
    }
    let none: Vec<String> = Vec::new();
    assert(none.deep_view() =~= Seq::empty());
    none
}

/// Whether the column list asks for every column.
pub open spec fn shows_all(columns: Seq<Seq<char>>) -> bool {
    columns.len() > 0 && columns[0] == "*"@
}

/// The positions of the columns to show.
pub open spec fn picks_of(headers: Seq<Seq<char>>, columns: Seq<Seq<char>>) -> Seq<usize> {
    Seq::new(columns.len(), |c: int| key_of(headers, columns[c]))
}

/// The fields of a row at the given positions, in the order of the positions.
pub open spec fn picked(row: Seq<Seq<char>>, picks: Seq<usize>) -> Seq<Seq<char>> {
    Seq::new(picks.len(), |c: int| row[picks[c] as int])
}

/// Whether every position lies within a row of `width` fields.
pub open spec fn positions_within(positions: Seq<usize>, width: int) -> bool {
    forall|c: int| 0 <= c < positions.len() ==> #[trigger] positions[c] < width
}

/// Whether every line has a field at every position.
pub open spec fn lines_hold(lines: Seq<Seq<char>>, positions: Seq<usize>) -> bool {
    forall|i: int|
        0 <= i < lines.len() ==> positions_within(
            positions,
            #[trigger] split(lines[i], ',').len() as int,
        )
}

/// The fault that keeps the columns from being shown: no column is asked
/// for; or, unless every column is, the header lacks one that is asked for,
/// or a line is too short to hold one.
pub open spec fn projection_fault(
    headers: Seq<Seq<char>>,
    lines: Seq<Seq<char>>,
    columns: Seq<Seq<char>>,
) -> Option<ErrorType> {
    if columns.len() == 0 {
        Some(ErrorType::InvalidSyntax)
    } else if shows_all(columns) {
        None
    } else if !positions_within(picks_of(headers, columns), headers.len() as int) {
        Some(ErrorType::InvalidColumn)
    } else if !lines_hold(lines, picks_of(headers, columns)) {
        Some(ErrorType::Error)
    } else {
        None
    }
}

/// The lines that show the columns: first the header, then one for each of
/// the lines. Where every column is asked for, the header's fields joined,
/// and the lines as they are; otherwise, of the header and of each line,
/// the fields at the positions of the columns, joined.
pub open spec fn projected(
    headers: Seq<Seq<char>>,
    lines: Seq<Seq<char>>,
    columns: Seq<Seq<char>>,
) -> Seq<Seq<char>> {
    if shows_all(columns) {
        seq![join(headers, ',')] + lines
    } else {
        seq![join(picked(headers, picks_of(headers, columns)), ',')] + Seq::new(
            lines.len(),
            |i: int| join(picked(split(lines[i], ','), picks_of(headers, columns)), ','),
        )
    }
}

/// Picks the fields of a row at the given positions, or nothing where the
/// row lacks one of them.
pub fn pick_fields(row: &Vec<String>, positions: &Vec<usize>) -> (r: Option<Vec<String>>)
    ensures
        match r {
            Some(fields) => positions_within(positions@, row.len() as int) && fields.deep_view()
                == picked(row.deep_view(), positions@),
            None => !positions_within(positions@, row.len() as int),
        },
{
    let mut fields: Vec<String> = Vec::new();
    let n: usize = positions.len();
    let mut c: usize = 0;
    while c < n
        invariant
            c <= n,
            n == positions.len(),
            fields.len() == c,
            forall|k: int| 0 <= k < c ==> #[trigger] positions[k] < row.len(),
            forall|k: int| 0 <= k < c ==> #[trigger] fields[k]@ == row[positions[k] as int]@,
        decreases n - c,
    {
        let at: usize = positions[c];
        if at >= row.len() {
            assert(!(positions@[c as int] < row.len()));
            return None;
        }
        fields.push(row[at].clone());
        c = c + 1;
    }
    assert(fields.deep_view() =~= picked(row.deep_view(), positions@));
    Some(fields)
}

/// The lines that show the asked-for columns of the header and of the
/// result lines, or the fault that keeps them from being shown.
pub fn selected_rows(
    result_table: &Vec<String>,
    columns: &Vec<String>,
    headers: &Vec<String>,
) -> (r: Result<Vec<String>, ErrorType>)
    ensures
        match r {
            Ok(shown) => projection_fault(
                headers.deep_view(),
                result_table.deep_view(),
                columns.deep_view(),
            ) is None && shown.deep_view() == projected(
                headers.deep_view(),
                result_table.deep_view(),
                columns.deep_view(),
            ),
            Err(e) => projection_fault(
                headers.deep_view(),
                result_table.deep_view(),
                columns.deep_view(),
            ) == Some(e),
        },
{
    let ghost names = headers.deep_view();
    let ghost lines = result_table.deep_view();
    let ghost wanted = columns.deep_view();
    if columns.len() == 0 {
        return Err(ErrorType::InvalidSyntax);
    }
    let mut shown: Vec<String> = Vec::new();
    let n: usize = result_table.len();
    if same_text(columns[0].as_str(), "*") {
        shown.push(join_line(headers));
        let mut i: usize = 0;
        while i < n
            invariant
                i <= n,
                n == result_table.len(),
                shown.len() == i + 1,
                shown[0]@ == join(headers.deep_view(), ','),
                forall|k: int| 1 <= k <= i ==> #[trigger] shown[k]@ == result_table[k - 1]@,
            decreases n - i,
        {
            shown.push(result_table[i].clone());
            i = i + 1;
        }
        assert(shown.deep_view() =~= projected(names, lines, wanted));
        return Ok(shown);
    }
    let mut selected_indices: Vec<usize> = Vec::new();
    let mut c: usize = 0;
    while c < columns.len()
        invariant
            c <= columns.len(),
            names == headers.deep_view(),
            wanted == columns.deep_view(),
            wanted.len() > 0,
            !shows_all(wanted),
            selected_indices.len() == c,
            forall|k: int|
                0 <= k < c ==> #[trigger] selected_indices[k] == key_of(names, wanted[k])
                    && selected_indices[k] < names.len(),
        decreases columns.len() - c,
    {
        match find_column(headers.as_slice(), columns[c].as_str()) {
            Some(at) => {
                selected_indices.push(at);
            },
            None => {
                assert(names.len() == headers.len());
                assert(!(picks_of(names, wanted)[c as int] < names.len()));
                return Err(ErrorType::InvalidColumn);
            },
        }
        c = c + 1;
    }
    assert(selected_indices@ =~= picks_of(names, wanted));
    let header = match pick_fields(headers, &selected_indices) {
        Some(fields) => fields,
        None => {
            return Err(ErrorType::InvalidColumn);
        },
    };
    shown.push(join_line(&header));
    let mut i: usize = 0;
    while i < n
        invariant
            i <= n,
            n == result_table.len(),
            names == headers.deep_view(),
            lines == result_table.deep_view(),
            wanted == columns.deep_view(),
            !shows_all(wanted),
            wanted.len() > 0,
            selected_indices@ == picks_of(names, wanted),
            positions_within(selected_indices@, names.len() as int),
            shown.len() == i + 1,
            shown[0]@ == join(picked(names, selected_indices@), ','),
            forall|k: int|
                0 <= k < i ==> positions_within(
                    selected_indices@,
                    #[trigger] split(lines[k], ',').len() as int,
                ),
            forall|k: int|
                1 <= k <= i ==> #[trigger] shown[k]@ == join(
                    picked(split(lines[k - 1], ','), selected_indices@),
                    ',',
                ),
        decreases n - i,
    {
        let row = split_line(result_table[i].as_str(), ',');
        match pick_fields(&row, &selected_indices) {
            Some(fields) => {
                shown.push(join_line(&fields));
            },
            None => {
                assert(!positions_within(
                    selected_indices@,
                    split(lines[i as int], ',').len() as int,
                ));
                return Err(ErrorType::Error);
            },
        }
        i = i + 1;
    }
    assert(shown.deep_view() =~= projected(names, lines, wanted));
    Ok(shown)
}

/// What a `SELECT` gives on a table under a header.
///
/// The lines that meet the condition are sorted by the keys and shown by
/// the column list. A fault is reported in place of any line: first that
/// of a line of which the condition cannot be decided, then an ordering key
/// that the header lacks, then a line that is too short for a key, then
/// that of the column list.
pub open spec fn shown_under(
    table: Seq<Seq<char>>,
    headers: Seq<Seq<char>>,
    query: SelectQueryView,
) -> Result<Seq<Seq<char>>, ErrorType> {
    let lines = data_of(table);
    let kept = kept_of(lines, query.condition, headers);
    let keys = keys_from(query.order_by, headers, 0);
    let directions = directions_from(query.order_by, headers, 0, Map::empty());
    if first_fault(lines, query.condition, headers) is Some {
        Err(first_fault(lines, query.condition, headers)->0)
    } else if !positions_within(keys, headers.len() as int) {
        Err(ErrorType::InvalidColumn)
    } else if !lines_hold(kept, keys) {
        Err(ErrorType::Error)
    } else {
        match projection_fault(headers, sorted(kept, directions, keys), query.columns) {
            Some(e) => Err(e),
            None => Ok(projected(headers, sorted(kept, directions, keys), query.columns)),
        }
    }
}

/// What a `SELECT` gives on a table: what it gives under the header of
/// the table.
pub open spec fn select_result(table: Seq<Seq<char>>, query: SelectQueryView) -> Result<
    Seq<Seq<char>>,
    ErrorType,
> {
    shown_under(table, headers_of(table), query)
}

/// What a result of lines holds.
pub open spec fn shown_of(r: Result<Vec<String>, ErrorType>) -> Result<Seq<Seq<char>>, ErrorType> {
    match r {
        Ok(lines) => Ok(lines.deep_view()),
        Err(e) => Err(e),
    }
}

/// Copies the data lines of a table that are flagged.
fn keep_lines(
    table: &Vec<String>,
    flags: &Vec<bool>,
    Ghost(condition): Ghost<Seq<Seq<char>>>,
    Ghost(headers): Ghost<Seq<Seq<char>>>,
) -> (kept: Vec<String>)
    requires
        flags.len() == data_of(table.deep_view()).len(),
        forall|i: int|
            0 <= i < flags.len() ==> flags[i] == meets(
                #[trigger] data_of(table.deep_view())[i],
                condition,
                headers,
            ),
    ensures
        kept.deep_view() == kept_of(data_of(table.deep_view()), condition, headers),
{
    let mut kept: Vec<String> = Vec::new();
    let n: usize = flags.len();
    let ghost lines = data_of(table.deep_view());
    let mut i: usize = 0;
    assert(lines.take(0) =~= Seq::<Seq<char>>::empty());
    assert(kept.deep_view() =~= Seq::<Seq<char>>::empty());
    while i < n
        invariant
            i <= n,
            n == flags.len(),
            n == lines.len(),
            lines == data_of(table.deep_view()),
            forall|k: int|
                0 <= k < flags.len() ==> flags[k] == meets(#[trigger] lines[k], condition, headers),
            kept.deep_view() == kept_of(lines.take(i as int), condition, headers),
        decreases n - i,
    {
        let ghost before = kept.deep_view();
        proof {
            assert(lines.take(i + 1).drop_last() =~= lines.take(i as int));
            assert(lines.take(i + 1).last() == lines[i as int]);
        }
        if flags[i] {
            kept.push(table[i + 1].clone());
            assert(kept.deep_view() =~= before.push(lines[i as int]));
        }
        i = i + 1;
    }
    assert(lines.take(n as int) =~= lines);
    kept
}

/// Tells whether every position lies within a row of `width` fields.
pub fn check_positions(positions: &Vec<usize>, width: usize) -> (r: bool)
    ensures
        r == positions_within(positions@, width as int),
{
    let mut c: usize = 0;
    while c < positions.len()
        invariant
            c <= positions.len(),
            forall|k: int| 0 <= k < c ==> #[trigger] positions[k] < width,
        decreases positions.len() - c,
    {
        if positions[c] >= width {
            return false;
        }
        c = c + 1;
    }
    true
}

/// Tells whether every line has a field at every position.
pub fn check_lines(lines: &Vec<String>, positions: &Vec<usize>) -> (r: bool)
    ensures
        r == lines_hold(lines.deep_view(), positions@),
{
    let mut i: usize = 0;
    while i < lines.len()
        invariant
            i <= lines.len(),
            forall|k: int|
                0 <= k < i ==> positions_within(
                    positions@,
                    #[trigger] split(lines.deep_view()[k], ',').len() as int,
                ),
        decreases lines.len() - i,
    {
        let row = split_line(lines[i].as_str(), ',');
        if !check_positions(positions, row.len()) {
            assert(!positions_within(
                positions@,
                split(lines.deep_view()[i as int], ',').len() as int,
            ));
            return false;
        }
        i = i + 1;
    }
    true
}

/// Runs a `SELECT` on the data lines of a table under the given header:
/// keeps the lines that meet the condition, sorts them by the keys and
/// shows the asked-for columns, header first.
pub fn select_rows(table: &Vec<String>, headers: &Vec<String>, query: &SelectQuery) -> (r: Result<
    Vec<String>,
    ErrorType,
>)
    ensures
        shown_of(r) == shown_under(table.deep_view(), headers.deep_view(), query@),
{
    let flags = match match_lines(table, query.condition.as_slice(), headers) {
        Ok(flags) => flags,
        Err(e) => {
            return Err(e);
        },
    };
    let mut result_table = keep_lines(
        table,
        &flags,
        Ghost(query.condition.deep_view()),
        Ghost(headers.deep_view()),
    );
    let (order_map, insertion_order) = read_order_by(query.order_by.as_slice(), headers);
    if !check_positions(&insertion_order, headers.len()) {
        return Err(ErrorType::InvalidColumn);
    }
    if !check_lines(&result_table, &insertion_order) {
        return Err(ErrorType::Error);
    }
    let ghost kept = result_table.deep_view();
    let ghost keys = insertion_order@;
    let ghost directions = directions_of(order_map@);
    proof {
        assert forall|i: int| 0 <= i < kept.len() implies keys_fit(
            directions,
            keys,
            #[trigger] split(kept[i], ',').len() as int,
        ) by {
            assert(positions_within(keys, split(kept[i], ',').len() as int));
        }
    }
    order_rows(&mut result_table, order_map, insertion_order);
    selected_rows(&result_table, &query.columns, headers)
}

/// Runs a `SELECT` on a table: keeps the lines that meet the condition,
/// sorts them by the keys and shows the asked-for columns, header first.
pub fn select(table: &Vec<String>, query: &SelectQuery) -> (r: Result<Vec<String>, ErrorType>)
    ensures
        shown_of(r) == select_result(table.deep_view(), query@),
{
    let headers = read_headers(table);
    select_rows(table, &headers, query)
}

} // verus!
