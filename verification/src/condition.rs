//! Conditions: comparisons of a column with a literal, joined by `and`,
//! `or` and `not`, and read strictly from left to right.

use crate::error::ErrorType;
use crate::extras::{cast_to_value, column_of, find_column, value_of};
use crate::operations::{compares, filter};
use crate::text::same_text;
use vstd::prelude::*;
use vstd::string::*;

verus! {

broadcast use vstd::string::group_string_axioms;

/// Whether a token joins comparisons.
pub open spec fn is_connective(token: Seq<char>) -> bool {
    token == "and"@ || token == "or"@ || token == "not"@
}

/// What the comparison at `i` decides of a row: the field of the column that
/// token `i` names, against the literal at `i + 2`, by the operator at `i + 1`.
pub open spec fn comparison_at(
    row: Seq<Seq<char>>,
    condition: Seq<Seq<char>>,
    headers: Seq<Seq<char>>,
    i: int,
) -> bool {
    compares(
        value_of(row[column_of(headers, condition[i])->0]),
        value_of(condition[i + 2]),
        condition[i + 1],
    )
}

/// The results of the comparisons from `i` on, in order. A connective is
/// passed over; any other token starts a comparison of three tokens.
pub open spec fn comparisons_from(
    row: Seq<Seq<char>>,
    condition: Seq<Seq<char>>,
    headers: Seq<Seq<char>>,
    i: int,
) -> Seq<bool>
    decreases condition.len() - i,
{
    if i < 0 || i >= condition.len() {
        Seq::empty()
    } else if is_connective(condition[i]) {
        comparisons_from(row, condition, headers, i + 1)
    } else if i + 2 < condition.len() {
        seq![comparison_at(row, condition, headers, i)] + comparisons_from(
            row,
            condition,
            headers,
            i + 3,
        )
    } else {
        Seq::empty()
    }
}

/// The connectives from `i` on, in order.
pub open spec fn connectives_from(condition: Seq<Seq<char>>, i: int) -> Seq<Seq<char>>
    decreases condition.len() - i,
{
    if i < 0 || i >= condition.len() {
        Seq::empty()
    } else if is_connective(condition[i]) {
        seq![condition[i]] + connectives_from(condition, i + 1)
    } else if i + 2 < condition.len() {
        connectives_from(condition, i + 3)
    } else {
        Seq::empty()
    }
}

/// What is wrong with the column that a comparison names, for rows of
/// `width` fields: the header lacks it, or the rows are too short to hold it.
pub open spec fn column_fault(headers: Seq<Seq<char>>, name: Seq<char>, width: int) -> Option<
    ErrorType,
> {
    match column_of(headers, name) {
        None => Some(ErrorType::InvalidColumn),
        Some(at) => if at < width {
            None
        } else {
            Some(ErrorType::Error)
        },
    }
}

/// The first fault that reading the comparisons from `i` on meets: a column
/// fault, or one or two tokens left over that make no comparison.
pub open spec fn scan_fault(
    condition: Seq<Seq<char>>,
    headers: Seq<Seq<char>>,
    width: int,
    i: int,
) -> Option<ErrorType>
    decreases condition.len() - i,
{
    if i < 0 || i >= condition.len() {
        None
    } else if is_connective(condition[i]) {
        scan_fault(condition, headers, width, i + 1)
    } else if i + 2 < condition.len() {
        if column_fault(headers, condition[i], width) is Some {
            column_fault(headers, condition[i], width)
        } else {
            scan_fault(condition, headers, width, i + 3)
        }
    } else {
        Some(ErrorType::InvalidSyntax)
    }
}

/// Whether a connective joins what has been found with a further result.
pub open spec fn joins(connective: Seq<char>) -> bool {
    connective == "and"@ || connective == "or"@
}

/// Whether `count` results are enough for the connectives: there is a first
/// result, and for the `k`-th connective, where it is `and` or `or`, a
/// result `k + 1`.
pub open spec fn connectives_fit(count: int, connectives: Seq<Seq<char>>) -> bool {
    &&& count >= 1
    &&& forall|k: int|
        0 <= k < connectives.len() && joins(#[trigger] connectives[k]) ==> k + 1 < count
}

/// The fault, if any, that keeps a condition from being decided of rows of
/// `width` fields. A condition of fewer than three tokens has none. Of a
/// longer one the first token is looked up as a column. Where there are
/// more than three tokens, the comparisons are then read from left to
/// right, and at last the connectives are held against the number of
/// results. The first fault met is the fault of the condition: an invalid
/// column where the header lacks the name, an error where the rows are too
/// short, a syntax error where tokens are left over or a connective lacks
/// its result.
pub open spec fn condition_fault(
    condition: Seq<Seq<char>>,
    headers: Seq<Seq<char>>,
    width: int,
) -> Option<ErrorType> {
    if condition.len() < 3 {
        None
    } else if column_fault(headers, condition[0], width) is Some {
        column_fault(headers, condition[0], width)
    } else if condition.len() == 3 {
        None
    } else if scan_fault(condition, headers, width, 0) is Some {
        scan_fault(condition, headers, width, 0)
    } else if !connectives_fit(
        comparisons_count(condition, 0),
        connectives_from(condition, 0),
    ) {
        Some(ErrorType::InvalidSyntax)
    } else {
        None
    }
}

/// How many comparisons stand from `i` on.
pub open spec fn comparisons_count(condition: Seq<Seq<char>>, i: int) -> int
    decreases condition.len() - i,
{
    if i < 0 || i >= condition.len() {
        0
    } else if is_connective(condition[i]) {
        comparisons_count(condition, i + 1)
    } else if i + 2 < condition.len() {
        1 + comparisons_count(condition, i + 3)
    } else {
        0
    }
}

/// Joins two results: `and` and `or` as usual, anything else to false.
pub open spec fn joined(first: bool, second: bool, operator: Seq<char>) -> bool {
    if operator == "and"@ {
        first && second
    } else if operator == "or"@ {
        first || second
    } else {
        false
    }
}

/// One step of the evaluation: `and` and `or` join what has been found so
/// far with the next result, `not` negates it, and any other word leaves it
/// as it is.
pub open spec fn step(so_far: bool, next: bool, connective: Seq<char>) -> bool {
    if joins(connective) {
        joined(so_far, next, connective)
    } else if connective == "not"@ {
        !so_far
    } else {
        so_far
    }
}

/// The evaluation from the `k`-th connective on: connective `k` takes what
/// has been found so far and result `k + 1`. No connective binds tighter
/// than another.
pub open spec fn folded_from(
    results: Seq<bool>,
    connectives: Seq<Seq<char>>,
    k: int,
    so_far: bool,
) -> bool
    decreases connectives.len() - k,
{
    if k < 0 || k >= connectives.len() {
        so_far
    } else {
        folded_from(results, connectives, k + 1, step(so_far, results[k + 1], connectives[k]))
    }
}

/// The evaluation of a composite condition: the first result, taken through
/// the connectives from left to right.
pub open spec fn folded(results: Seq<bool>, connectives: Seq<Seq<char>>) -> bool {
    folded_from(results, connectives, 0, results[0])
}

/// Whether a row meets a condition. A condition of fewer than three tokens
/// is met by every row; one of three tokens is a single comparison; a longer
/// one is evaluated from left to right.
pub open spec fn row_matches(
    row: Seq<Seq<char>>,
    condition: Seq<Seq<char>>,
    headers: Seq<Seq<char>>,
) -> bool {
    if condition.len() < 3 {
        true
    } else if condition.len() == 3 {
        comparison_at(row, condition, headers, 0)
    } else {
        folded(comparisons_from(row, condition, headers, 0), connectives_from(condition, 0))
    }
}

/// The number of results is the number of comparisons, whatever the row.
pub proof fn lemma_comparisons_count(
    row: Seq<Seq<char>>,
    condition: Seq<Seq<char>>,
    headers: Seq<Seq<char>>,
    i: int,
)
    ensures
        comparisons_from(row, condition, headers, i).len() == comparisons_count(condition, i),
    decreases condition.len() - i,
{
    if 0 <= i < condition.len() {
        if is_connective(condition[i]) {
            lemma_comparisons_count(row, condition, headers, i + 1);
        } else if i + 2 < condition.len() {
            lemma_comparisons_count(row, condition, headers, i + 3);
        }
    }
}

/// Joins two results by `and` or `or`.
pub fn logic_op(first_cond: bool, second_cond: bool, operator: &str) -> (r: bool)
    ensures
        r == joined(first_cond, second_cond, operator@),
{
    if same_text(operator, "and") {
        first_cond && second_cond
    } else if same_text(operator, "or") {
        first_cond || second_cond
    } else {
        false
    }
}

/// Tells whether a token is `and`, `or` or `not`.
pub fn connective(token: &str) -> (r: bool)
    ensures
        r == is_connective(token@),
{
    same_text(token, "and") || same_text(token, "or") || same_text(token, "not")
}

/// Copies header names into owned strings.
pub fn owned_headers(headers: &[&str]) -> (r: Vec<String>)
    ensures
        r.deep_view() == headers.deep_view(),
{
    let mut r: Vec<String> = Vec::new();
    let n: usize = headers.len();
    let mut i: usize = 0;
    while i < n
        invariant
            i <= n,
            n == headers.len(),
            r.len() == i,
            forall|k: int| 0 <= k < i ==> r[k]@ == headers[k]@,
        decreases n - i,
    {
        r.push(String::from_str(headers[i]));
        i = i + 1;
    }
    assert(r.deep_view() =~= headers.deep_view());
    r
}

/// Reads the comparisons and connectives of a condition from left to right,
/// and decides each comparison on the row; stops at the first fault.
pub fn scan_condition(condition: &[String], row: &Vec<String>, headers: &Vec<String>) -> (r: Result<
    (Vec<bool>, Vec<String>),
    ErrorType,
>)
    ensures
        match r {
            Ok(found) => {
                &&& scan_fault(condition.deep_view(), headers.deep_view(), row.len() as int, 0)
                    is None
                &&& found.0@ == comparisons_from(
                    row.deep_view(),
                    condition.deep_view(),
                    headers.deep_view(),
                    0,
                )
                &&& found.1.deep_view() == connectives_from(condition.deep_view(), 0)
            },
            Err(e) => scan_fault(condition.deep_view(), headers.deep_view(), row.len() as int, 0)
                == Some(e),
        },
{
    let mut bools: Vec<bool> = Vec::new();
    let mut ops: Vec<String> = Vec::new();
    let n: usize = condition.len();
    let ghost tokens = condition.deep_view();
    let ghost names = headers.deep_view();
    let ghost fields = row.deep_view();
    let mut i: usize = 0;
    assert(ops.deep_view() =~= Seq::empty());
    while i < n
        invariant
            n == condition.len(),
            tokens == condition.deep_view(),
            names == headers.deep_view(),
            fields == row.deep_view(),
            scan_fault(tokens, names, row.len() as int, 0) == scan_fault(
                tokens,
                names,
                row.len() as int,
                i as int,
            ),
            comparisons_from(fields, tokens, names, 0) == bools@ + comparisons_from(
                fields,
                tokens,
                names,
                i as int,
            ),
            connectives_from(tokens, 0) == ops.deep_view() + connectives_from(tokens, i as int),
        decreases n - i,
    {
        let ghost bools_before = bools@;
        let ghost ops_before = ops.deep_view();
        if connective(condition[i].as_str()) {
            ops.push(condition[i].clone());
            proof {
                assert(ops.deep_view() =~= ops_before.push(tokens[i as int]));
                assert(ops_before + (seq![tokens[i as int]] + connectives_from(tokens, i + 1))
                    =~= ops_before.push(tokens[i as int]) + connectives_from(tokens, i + 1));
            }
            i = i + 1;
        } else if n - i > 2 {
            let column_index: usize = match find_column(
                headers.as_slice(),
                condition[i].as_str(),
            ) {
                Some(at) => at,
                None => {
                    return Err(ErrorType::InvalidColumn);
                },
            };
            if column_index >= row.len() {
                return Err(ErrorType::Error);
            }
            let column_value = cast_to_value(row[column_index].as_str());
            let condition_value = cast_to_value(condition[i + 2].as_str());
            let result = filter(column_value, condition_value, condition[i + 1].as_str());
            bools.push(result);
            proof {
                assert(result == comparison_at(fields, tokens, names, i as int));
                assert(bools_before + (seq![result] + comparisons_from(
                    fields,
                    tokens,
                    names,
                    i + 3,
                )) =~= bools_before.push(result) + comparisons_from(fields, tokens, names, i + 3));
            }
            i = i + 3;
        } else {
            return Err(ErrorType::InvalidSyntax);
        }
    }
    proof {
        assert(bools@ + Seq::<bool>::empty() =~= bools@);
        assert(ops.deep_view() + Seq::<Seq<char>>::empty() =~= ops.deep_view());
    }
    Ok((bools, ops))
}

/// Reads the comparisons and connectives of a condition from left to right,
/// and decides each comparison on the row; stops at the first fault, which
/// it returns.
pub fn extract_bools_and_operators(condition: &[String], row: &Vec<String>, headers: &[&str]) -> (r:
    Result<(Vec<bool>, Vec<String>), ErrorType>)
    ensures
        match r {
            Ok(found) => {
                &&& scan_fault(condition.deep_view(), headers.deep_view(), row.len() as int, 0)
                    is None
                &&& found.0@ == comparisons_from(
                    row.deep_view(),
                    condition.deep_view(),
                    headers.deep_view(),
                    0,
                )
                &&& found.1.deep_view() == connectives_from(condition.deep_view(), 0)
            },
            Err(e) => scan_fault(condition.deep_view(), headers.deep_view(), row.len() as int, 0)
                == Some(e),
        },
{
    let headers_vec = owned_headers(headers);
    scan_condition(condition, row, &headers_vec)
}

/// Takes the first result through the connectives from left to right:
/// `and` and `or` join it with the next result, `not` negates it, any other
/// word leaves it as it is.
pub fn evaluate_logical_conditions(bools: Vec<bool>, ops: Vec<String>) -> (r: bool)
    requires
        connectives_fit(bools.len() as int, ops.deep_view()),
    ensures
        r == folded(bools@, ops.deep_view()),
{
    let mut result: bool = bools[0];
    let n: usize = ops.len();
    let ghost connectives = ops.deep_view();
    let mut i: usize = 0;
    while i < n
        invariant
            i <= n,
            n == ops.len(),
            connectives == ops.deep_view(),
            connectives_fit(bools.len() as int, connectives),
            folded(bools@, connectives) == folded_from(bools@, connectives, i as int, result),
        decreases n - i,
    {
        let op: &str = ops[i].as_str();
        assert(op@ == connectives[i as int]);
        if same_text(op, "and") || same_text(op, "or") {
            assert(joins(connectives[i as int]));
            result = logic_op(result, bools[i + 1], op);
        } else if same_text(op, "not") {
            result = !result;
        }
        i = i + 1;
    }
    result
}

/// Whether the connectives find the results they need.
pub fn check_connectives(count: usize, ops: &Vec<String>) -> (r: bool)
    ensures
        r == connectives_fit(count as int, ops.deep_view()),
{
    if count < 1 {
        return false;
    }
    let n: usize = ops.len();
    let ghost connectives = ops.deep_view();
    let mut k: usize = 0;
    while k < n
        invariant
            k <= n,
            n == ops.len(),
            count >= 1,
            connectives == ops.deep_view(),
            forall|j: int| 0 <= j < k && joins(#[trigger] connectives[j]) ==> j + 1 < count,
        decreases n - k,
    {
        if (same_text(ops[k].as_str(), "and") || same_text(ops[k].as_str(), "or")) && k + 1
            >= count {
            assert(joins(connectives[k as int]));
            return false;
        }
        k = k + 1;
    }
    true
}

/// Decides whether a row meets a condition under a header held as strings,
/// or tells the fault that keeps the condition from being decided of the
/// row.
pub fn evaluate_row(row: &Vec<String>, condition: &[String], headers: &Vec<String>) -> (r: Result<
    bool,
    ErrorType,
>)
    ensures
        r == match condition_fault(
            condition.deep_view(),
            headers.deep_view(),
            row.len() as int,
        ) {
            Some(e) => Err::<bool, ErrorType>(e),
            None => Ok::<bool, ErrorType>(
                row_matches(row.deep_view(), condition.deep_view(), headers.deep_view()),
            ),
        },
{
    if condition.len() < 3 {
        return Ok(true);
    }
    let column_condition_index: usize = match find_column(
        headers.as_slice(),
        condition[0].as_str(),
    ) {
        Some(at) => at,
        None => {
            return Err(ErrorType::InvalidColumn);
        },
    };
    if column_condition_index >= row.len() {
        return Err(ErrorType::Error);
    }
    if condition.len() > 3 {
        let (results, ops) = match scan_condition(condition, row, headers) {
            Ok(found) => found,
            Err(e) => {
                return Err(e);
            },
        };
        proof {
            lemma_comparisons_count(
                row.deep_view(),
                condition.deep_view(),
                headers.deep_view(),
                0,
            );
        }
        if !check_connectives(results.len(), &ops) {
            return Err(ErrorType::InvalidSyntax);
        }
        Ok(evaluate_logical_conditions(results, ops))
    } else {
        let column_condition_value = cast_to_value(condition[2].as_str());
        let value = cast_to_value(row[column_condition_index].as_str());
        Ok(filter(value, column_condition_value, condition[1].as_str()))
    }
}

/// Decides whether a row meets a condition. Where the condition cannot be
/// decided of the row, the fault is returned: an invalid column where the
/// header lacks a column that the condition names, an error where the row
/// is too short to hold it, a syntax error where the condition is malformed.
pub fn filter_row(row: &Vec<String>, condition: &[String], headers: &[&str]) -> (r: Result<
    bool,
    ErrorType,
>)
    ensures
        r == match condition_fault(
            condition.deep_view(),
            headers.deep_view(),
            row.len() as int,
        ) {
            Some(e) => Err::<bool, ErrorType>(e),
            None => Ok::<bool, ErrorType>(
                row_matches(row.deep_view(), condition.deep_view(), headers.deep_view()),
            ),
        },
{
    let headers_vec = owned_headers(headers);
    evaluate_row(row, condition, &headers_vec)
}

} // verus!
