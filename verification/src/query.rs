//! Structured queries, and the way from a statement to one of them.

use crate::error::ErrorType;
use crate::text::same_text;
use crate::tokens::{tokenize, tokens_of};
use crate::table::{data_of, first_fault, headers_of};
use crate::utils::delete_query::{delete, deleted, DeleteParser, DeleteQuery, DeleteQueryView};
use crate::utils::insert_query::{insert, inserted, InsertParser, InsertQuery, InsertQueryView};
use crate::utils::select_query::{
    select, select_result, shown_of, SelectParser, SelectQuery, SelectQueryView,
};
use crate::utils::update_query::{
    update, update_fault, updated, UpdateParser, UpdateQuery, UpdateQueryView,
};
use vstd::prelude::*;
use vstd::string::*;

verus! {

broadcast use vstd::string::group_string_axioms;

/// A parsed statement.
#[derive(Debug)]
pub enum Query {
    Select(SelectQuery),
    Insert(InsertQuery),
    Delete(DeleteQuery),
    Update(UpdateQuery),
}

/// What a [`Query`] holds.
pub enum QueryView {
    Select(SelectQueryView),
    Insert(InsertQueryView),
    Delete(DeleteQueryView),
    Update(UpdateQueryView),
}

impl View for Query {
    type V = QueryView;

    open spec fn view(&self) -> QueryView {
        match self {
            Query::Select(q) => QueryView::Select(q@),
            Query::Insert(q) => QueryView::Insert(q@),
            Query::Delete(q) => QueryView::Delete(q@),
            Query::Update(q) => QueryView::Update(q@),
        }
    }
}

/// The four commands.
#[derive(Debug, Clone, Copy, PartialEq, Eq, Structural)]
pub enum CommandType {
    Select,
    Insert,
    Delete,
    Update,
}

/// The grammar of one command, over the lowercase tokens of a statement.
pub trait CommandParser {
    /// Whether the tokens pass the command's syntax check.
    spec fn accepts(&self, tokens: Seq<Seq<char>>) -> bool;

    /// Whether the tokens hold every part that the query is built from.
    spec fn parses(&self, tokens: Seq<Seq<char>>) -> bool;

    /// The query that the tokens stand for.
    spec fn parsed(&self, tokens: Seq<Seq<char>>) -> QueryView;

    /// Checks the tokens against the command's grammar.
    fn validate_syntax(&self, parsed_query: &[String]) -> (r: Result<(), ErrorType>)
        ensures
            r == if self.accepts(parsed_query.deep_view()) {
                Ok::<(), ErrorType>(())
            } else {
                Err::<(), ErrorType>(ErrorType::InvalidSyntax)
            },
    ;

    /// Builds the query from the tokens.
    fn parse(&self, parsed_query: Vec<String>) -> (r: Result<Query, ErrorType>)
        ensures
            match r {
                Ok(query) => self.parses(parsed_query.deep_view()) && query@ == self.parsed(
                    parsed_query.deep_view(),
                ),
                Err(e) => !self.parses(parsed_query.deep_view()) && e == ErrorType::InvalidSyntax,
            },
    ;
}

/// The command that a leading keyword selects.
pub open spec fn command_of(keyword: Seq<char>) -> Option<CommandType> {
    if keyword == "select"@ {
        Some(CommandType::Select)
    } else if keyword == "insert"@ {
        Some(CommandType::Insert)
    } else if keyword == "delete"@ {
        Some(CommandType::Delete)
    } else if keyword == "update"@ {
        Some(CommandType::Update)
    } else {
        None
    }
}

/// Tells the command of a statement from its leading keyword.
pub fn command_type(keyword: &str) -> (r: Option<CommandType>)
    ensures
        r == command_of(keyword@),
{
    if same_text(keyword, "select") {
        Some(CommandType::Select)
    } else if same_text(keyword, "insert") {
        Some(CommandType::Insert)
    } else if same_text(keyword, "delete") {
        Some(CommandType::Delete)
    } else if same_text(keyword, "update") {
        Some(CommandType::Update)
    } else {
        None
    }
}

/// Whether the parser of a command accepts and parses the tokens.
pub open spec fn well_formed(command: CommandType, tokens: Seq<Seq<char>>) -> bool {
    match command {
        CommandType::Select => SelectParser.accepts(tokens) && SelectParser.parses(tokens),
        CommandType::Insert => InsertParser.accepts(tokens) && InsertParser.parses(tokens),
        CommandType::Delete => DeleteParser.accepts(tokens) && DeleteParser.parses(tokens),
        CommandType::Update => UpdateParser.accepts(tokens) && UpdateParser.parses(tokens),
    }
}

/// The query that a command's parser builds from the tokens.
pub open spec fn built(command: CommandType, tokens: Seq<Seq<char>>) -> QueryView {
    match command {
        CommandType::Select => SelectParser.parsed(tokens),
        CommandType::Insert => InsertParser.parsed(tokens),
        CommandType::Delete => DeleteParser.parsed(tokens),
        CommandType::Update => UpdateParser.parsed(tokens),
    }
}

/// What a list of tokens parses to: the query of the command that the first
/// token names, where that command's grammar is met; a syntax error
/// otherwise.
pub open spec fn query_of(tokens: Seq<Seq<char>>) -> Result<QueryView, ErrorType> {
    if tokens.len() >= 1 && command_of(tokens[0]) is Some && well_formed(
        command_of(tokens[0])->0,
        tokens,
    ) {
        Ok(built(command_of(tokens[0])->0, tokens))
    } else {
        Err(ErrorType::InvalidSyntax)
    }
}

/// Parses the lowercase tokens of a statement into a query.
pub fn parse_tokens(parsed_query: Vec<String>) -> (r: Result<Query, ErrorType>)
    ensures
        match r {
            Ok(query) => query_of(parsed_query.deep_view()) == Ok::<QueryView, ErrorType>(query@),
            Err(e) => query_of(parsed_query.deep_view()) == Err::<QueryView, ErrorType>(e),
        },
{
    if parsed_query.len() < 1 {
        return Err(ErrorType::InvalidSyntax);
    }
    let command = match command_type(parsed_query[0].as_str()) {
        Some(command) => command,
        None => {
            return Err(ErrorType::InvalidSyntax);
        },
    };
    match command {
        CommandType::Select => {
            match SelectParser.validate_syntax(parsed_query.as_slice()) {
                Ok(_) => SelectParser.parse(parsed_query),
                Err(e) => Err(e),
            }
        },
        CommandType::Insert => {
            match InsertParser.validate_syntax(parsed_query.as_slice()) {
                Ok(_) => InsertParser.parse(parsed_query),
                Err(e) => Err(e),
            }
        },
        CommandType::Delete => {
            match DeleteParser.validate_syntax(parsed_query.as_slice()) {
                Ok(_) => DeleteParser.parse(parsed_query),
                Err(e) => Err(e),
            }
        },
        CommandType::Update => {
            match UpdateParser.validate_syntax(parsed_query.as_slice()) {
                Ok(_) => UpdateParser.parse(parsed_query),
                Err(e) => Err(e),
            }
        },
    }
}

/// Parses a statement: splits it at whitespace, folds the words to lower
/// case and parses the tokens.
pub fn parse_query(query: &str) -> (r: Result<Query, ErrorType>)
    ensures
        match r {
            Ok(parsed) => query_of(tokens_of(query@)) == Ok::<QueryView, ErrorType>(parsed@),
            Err(e) => query_of(tokens_of(query@)) == Err::<QueryView, ErrorType>(e),
        },
{
    parse_tokens(tokenize(query))
}

/// Whether a query takes a table from `before` to `after` and gives `shown`.
///
/// A `SELECT` leaves the table as it is and gives its lines. The other
/// commands give no lines and change the table as their kind says; on a
/// fault they leave it as it was.
pub open spec fn carries(
    query: QueryView,
    before: Seq<Seq<char>>,
    after: Seq<Seq<char>>,
    shown: Result<Seq<Seq<char>>, ErrorType>,
) -> bool {
    match query {
        QueryView::Select(q) => after == before && shown == select_result(before, q),
        QueryView::Insert(q) => if q.columns.len() == q.values.len() {
            after == inserted(before, q) && shown == Ok::<Seq<Seq<char>>, ErrorType>(Seq::empty())
        } else {
            after == before && shown == Err::<Seq<Seq<char>>, ErrorType>(
                ErrorType::InvalidSyntax,
            )
        },
        QueryView::Delete(q) => match first_fault(
            data_of(before),
            q.condition,
            headers_of(before),
        ) {
            None => after == deleted(before, q) && shown == Ok::<Seq<Seq<char>>, ErrorType>(
                Seq::empty(),
            ),
            Some(e) => after == before && shown == Err::<Seq<Seq<char>>, ErrorType>(e),
        },
        QueryView::Update(q) => match update_fault(before, q) {
            None => after == updated(before, q) && shown == Ok::<Seq<Seq<char>>, ErrorType>(
                Seq::empty(),
            ),
            Some(e) => after == before && shown == Err::<Seq<Seq<char>>, ErrorType>(e),
        },
    }
}

/// Runs a query on a table, and returns the lines that it shows.
pub fn execute(table: &mut Vec<String>, query: Query) -> (r: Result<Vec<String>, ErrorType>)
    ensures
        carries(query@, old(table).deep_view(), final(table).deep_view(), shown_of(r)),
{
    let none: Vec<String> = Vec::new();
    assert(none.deep_view() =~= Seq::empty());
    match query {
        Query::Select(select_query) => select(table, &select_query),
        Query::Insert(insert_query) => match insert(table, &insert_query) {
            Ok(_) => Ok(none),
            Err(e) => Err(e),
        },
        Query::Delete(delete_query) => match delete(table, &delete_query) {
            Ok(_) => Ok(none),
            Err(e) => Err(e),
        },
        Query::Update(update_query) => match update(table, &update_query) {
            Ok(_) => Ok(none),
            Err(e) => Err(e),
        },
    }
}

/// What running a query means for the file that holds the table.
#[derive(Debug, Clone, Copy, PartialEq, Eq, Structural)]
pub enum Effect {
    /// The table stays as it is; the lines that are shown go to the output.
    Show,
    /// One line is added at the end of the table.
    Append,
    /// Lines of the table are replaced or taken out.
    Rewrite,
}

/// The effect of a query: a `SELECT` shows, an `INSERT` appends, a
/// `DELETE` rewrites, and an `UPDATE` rewrites where it has a condition and
/// appends where it has none.
pub open spec fn effect_of(query: QueryView) -> Effect {
    match query {
        QueryView::Select(_) => Effect::Show,
        QueryView::Insert(_) => Effect::Append,
        QueryView::Delete(_) => Effect::Rewrite,
        QueryView::Update(q) => if q.condition.len() == 0 {
            Effect::Append
        } else {
            Effect::Rewrite
        },
    }
}

/// Tells the effect of a query.
pub fn effect(query: &Query) -> (r: Effect)
    ensures
        r == effect_of(query@),
{
    match query {
        Query::Select(_) => Effect::Show,
        Query::Insert(_) => Effect::Append,
        Query::Delete(_) => Effect::Rewrite,
        Query::Update(update_query) => if update_query.condition.len() == 0 {
            Effect::Append
        } else {
            Effect::Rewrite
        },
    }
}

} // verus!
