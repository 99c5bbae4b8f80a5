//! Values, and the clauses of a tokenized statement.

use crate::text::{integer_of, lowercase, parse_integer, same_text, to_lower};
use crate::tokens::{clean_text, cleaned};
use vstd::prelude::*;
use vstd::string::*;

verus! {

broadcast use vstd::string::group_string_axioms;

/// A field of a table or a literal of a statement: an integer where the text
/// writes one, a text otherwise.
#[derive(Debug, PartialEq)]
pub enum Value {
    Int(i64),
    Str(String),
}

/// What a [`Value`] holds.
pub enum Scalar {
    Int(int),
    Str(Seq<char>),
}

impl View for Value {
    type V = Scalar;

    open spec fn view(&self) -> Scalar {
        match self {
            Value::Int(i) => Scalar::Int(*i as int),
            Value::Str(s) => Scalar::Str(s@),
        }
    }
}

/// The value that a text stands for.
pub open spec fn value_of(s: Seq<char>) -> Scalar {
    match integer_of(s) {
        Some(i) => Scalar::Int(i as int),
        None => Scalar::Str(s),
    }
}

/// Reads a text as an integer where it writes one, as itself otherwise.
pub fn cast_to_value(s: &str) -> (value: Value)
    ensures
        value@ == value_of(s@),
{
    match parse_integer(s) {
        Some(int_value) => Value::Int(int_value),
        None => Value::Str(String::from_str(s)),
    }
}

/// The integer of a value that holds one.
pub fn get_int_value(value: &Value) -> (r: Option<i64>)
    ensures
        match value@ {
            Scalar::Int(i) => r == Some(i as i64),
            Scalar::Str(_) => r is None,
        },
{
    match value {
        Value::Int(v) => Some(*v),
        Value::Str(_) => None,
    }
}

/// The text of a value that holds one, in lower case.
pub fn get_str_value(value: &Value) -> (r: Option<String>)
    ensures
        match value@ {
            Scalar::Int(_) => r is None,
            Scalar::Str(s) => r is Some && r->0@ == lowercase(s),
        },
{
    match value {
        Value::Int(_) => None,
        Value::Str(v) => Some(to_lower(v.as_str())),
    }
}

/// The first position at or after `from` where `word` stands among `tokens`,
/// or the number of tokens where it stands at none.
pub open spec fn first_from(tokens: Seq<Seq<char>>, word: Seq<char>, from: int) -> int
    decreases tokens.len() - from,
{
    if from < 0 || from >= tokens.len() {
        tokens.len() as int
    } else if tokens[from] == word {
        from
    } else {
        first_from(tokens, word, from + 1)
    }
}

/// What [`first_from`] finds: a position in range that holds the word, with
/// no earlier one from `from` on, or the end.
pub proof fn lemma_first_from(tokens: Seq<Seq<char>>, word: Seq<char>, from: int)
    requires
        0 <= from,
    ensures
        from <= first_from(tokens, word, from) || first_from(tokens, word, from) == tokens.len(),
        first_from(tokens, word, from) <= tokens.len(),
        first_from(tokens, word, from) < tokens.len() ==> tokens[first_from(tokens, word, from)]
            == word,
        forall|j: int| from <= j < first_from(tokens, word, from) ==> tokens[j] != word,
    decreases tokens.len() - from,
{
    if from < tokens.len() && tokens[from] != word {
        lemma_first_from(tokens, word, from + 1);
    }
}

/// The tokens from `from` up to, not including, `to`; none where the two do
/// not mark a range of the tokens.
pub open spec fn span(tokens: Seq<Seq<char>>, from: int, to: int) -> Seq<Seq<char>> {
    if 0 <= from <= to <= tokens.len() {
        tokens.subrange(from, to)
    } else {
        Seq::empty()
    }
}

/// Where the column list of a statement starts: behind the first `set` of an
/// `update`, behind the leading keyword of any other.
pub open spec fn columns_start(tokens: Seq<Seq<char>>) -> int {
    if tokens.len() > 0 && tokens[0] == "update"@ {
        first_from(tokens, "set"@, 1) + 1
    } else {
        1
    }
}

/// The column list of a statement: the tokens from [`columns_start`] up to
/// the next `from`, or to the end.
pub open spec fn columns_of(tokens: Seq<Seq<char>>) -> Seq<Seq<char>> {
    span(tokens, columns_start(tokens), first_from(tokens, "from"@, columns_start(tokens)))
}

/// The condition list of a statement: all tokens behind the first `where`.
pub open spec fn condition_of(tokens: Seq<Seq<char>>) -> Seq<Seq<char>> {
    span(tokens, first_from(tokens, "where"@, 0) + 1, tokens.len() as int)
}

/// Finds the first position at or after `from` that holds `word`.
pub fn find_from(tokens: &[String], word: &str, from: usize) -> (at: usize)
    ensures
        at == first_from(tokens.deep_view(), word@, from as int),
        at <= tokens.len(),
{
    let n: usize = tokens.len();
    let mut i: usize = from;
    while i < n
        invariant
            n == tokens.len(),
            from <= i,
            first_from(tokens.deep_view(), word@, from as int) == first_from(
                tokens.deep_view(),
                word@,
                i as int,
            ),
        decreases n - i,
    {
        if same_text(tokens[i].as_str(), word) {
            return i;
        }
        i = i + 1;
    }
    n
}

/// Copies the tokens from `from` up to, not including, `to`.
pub fn copy_span(tokens: &[String], from: usize, to: usize) -> (r: Vec<String>)
    ensures
        r.deep_view() == span(tokens.deep_view(), from as int, to as int),
{
    let mut r: Vec<String> = Vec::new();
    if from > to || to > tokens.len() {
        assert(r.deep_view() =~= Seq::empty());
        return r;
    }
    let mut i: usize = from;
    while i < to
        invariant
            from <= i <= to <= tokens.len(),
            r.len() == i - from,
            forall|k: int| 0 <= k < r.len() ==> r[k]@ == tokens[from + k]@,
        decreases to - i,
    {
        r.push(tokens[i].clone());
        i = i + 1;
    }
    assert(r.deep_view() =~= tokens.deep_view().subrange(from as int, to as int));
    r
}

/// The column list of a tokenized statement.
pub fn get_columns(parsed_query: &[String]) -> (columns: Vec<String>)
    ensures
        columns.deep_view() == columns_of(parsed_query.deep_view()),
{
    let n: usize = parsed_query.len();
    let mut index: usize = 1;
    if n > 0 && same_text(parsed_query[0].as_str(), "update") {
        index = find_from(parsed_query, "set", 1);
        if index >= n {
            let empty: Vec<String> = Vec::new();
            assert(empty.deep_view() =~= Seq::empty());
            return empty;
        }
        index = index + 1;
    }
    let end = find_from(parsed_query, "from", index);
    copy_span(parsed_query, index, end)
}

/// The condition list of a tokenized statement.
pub fn get_condition_columns(parsed_query: &[String]) -> (condition: Vec<String>)
    ensures
        condition.deep_view() == condition_of(parsed_query.deep_view()),
{
    let n: usize = parsed_query.len();
    let index = find_from(parsed_query, "where", 0);
    if index >= n {
        let empty: Vec<String> = Vec::new();
        assert(empty.deep_view() =~= Seq::empty());
        return empty;
    }
    copy_span(parsed_query, index + 1, n)
}

/// The position of a column among the headers: that of the first header
/// equal to the name.
pub open spec fn column_of(headers: Seq<Seq<char>>, name: Seq<char>) -> Option<int> {
    if first_from(headers, name, 0) < headers.len() {
        Some(first_from(headers, name, 0))
    } else {
        None
    }
}

/// Finds a column among the headers.
pub fn find_column(headers: &[String], column_name: &str) -> (r: Option<usize>)
    ensures
        match r {
            Some(at) => at < headers.len() && column_of(headers.deep_view(), column_name@)
                == Some(at as int),
            None => column_of(headers.deep_view(), column_name@) is None,
        },
{
    let at = find_from(headers, column_name, 0);
    if at < headers.len() {
        Some(at)
    } else {
        None
    }
}

/// The position of a column in the header of a table, or -1 where the
/// header does not name it. A position that `isize` cannot hold, which no
/// header in memory reaches, is answered by -1 as well.
pub fn get_column_index(headers: &[String], column_name: &str) -> (index: isize)
    ensures
        index == match column_of(headers.deep_view(), column_name@) {
            Some(i) => if i <= isize::MAX {
                i
            } else {
                -1
            },
            None => -1,
        },
{
    match find_column(headers, column_name) {
        Some(i) => if i <= isize::MAX as usize {
            i as isize
        } else {
            -1
        },
        None => -1,
    }
}

/// The tokens, each without the punctuation and whitespace around it.
pub open spec fn cleaned_all(tokens: Seq<Seq<char>>) -> Seq<Seq<char>> {
    Seq::new(tokens.len(), |i: int| cleaned(tokens[i]))
}

/// Strips parentheses, commas, apostrophes, semicolons and then whitespace
/// from both ends of each token.
pub fn cleaned_values(columns: Vec<String>) -> (r: Vec<String>)
    ensures
        r.deep_view() == cleaned_all(columns.deep_view()),
{
    let mut r: Vec<String> = Vec::new();
    let n: usize = columns.len();
    let mut i: usize = 0;
    while i < n
        invariant
            i <= n,
            n == columns.len(),
            r.len() == i,
            forall|k: int| 0 <= k < i ==> r[k]@ == cleaned(columns[k]@),
        decreases n - i,
    {
        r.push(clean_text(columns[i].as_str()));
        i = i + 1;
    }
    assert(r.deep_view() =~= cleaned_all(columns.deep_view()));
    r
}

} // verus!
