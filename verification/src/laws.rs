//! Laws that relate the parts of the engine to each other.

use crate::condition::{
    comparison_at, comparisons_from, connectives_from, folded_from, is_connective, joined, joins,
    row_matches,
};
use crate::error::ErrorType;
use crate::extras::{column_of, first_from, lemma_first_from};
use crate::fields::{
    free_of, lemma_join_split, lemma_split_free_of, lemma_split_join, lemma_split_nonempty, split,
};
use crate::ordering::{
    arranged, column_before, directions_from, is_arrangement, keys_from, lemma_place_of,
    lemma_row_before_asymmetric, lemma_sorted_order_sorts, line_before, moved_for_cause,
    neighbours_in_order, place_of, row_before, sorted, sorted_order, sorts,
};
use crate::query::{carries, effect_of, query_of, CommandParser, Effect, QueryView};
use crate::table::{data_of, first_fault, header_line, headers_of, kept_of, meets};
use crate::tokens::{strip, Trim};
use crate::utils::delete_query::{deleted, spared, DeleteQueryView};
use crate::utils::insert_query::{inserted, inserted_row, InsertParser, InsertQueryView};
use crate::utils::select_query::{select_result, shows_all, SelectQueryView};
use crate::utils::update_query::{
    assigned_columns, assigned_values, assignments_start, assigns_at, update_fault, updated,
    updated_row, UpdateQueryView,
};
use vstd::prelude::*;

verus! {

/// Filtering is a function of what the row, the condition and the header
/// hold: whenever it is asked the same, it answers the same.
pub proof fn lemma_filtering_repeats(
    row: Seq<Seq<char>>,
    condition: Seq<Seq<char>>,
    headers: Seq<Seq<char>>,
    first: bool,
    second: bool,
)
    requires
        first == row_matches(row, condition, headers),
        second == row_matches(row, condition, headers),
    ensures
        first == second,
{
}

/// The token that names the column of the `k`-th comparison of a condition
/// of comparisons joined one by one.
pub open spec fn column_token(condition: Seq<Seq<char>>, k: int) -> Seq<char> {
    condition[4 * k]
}

/// The token that joins the `k`-th comparison to those before it.
pub open spec fn joint_token(condition: Seq<Seq<char>>, k: int) -> Seq<char> {
    condition[4 * k - 1]
}

/// Whether a condition is `m + 1` comparisons, each joined to those before
/// it by one `and` or `or`, where no comparison names its column by the
/// word of a connective.
pub open spec fn joins_comparisons(condition: Seq<Seq<char>>, m: int) -> bool {
    &&& m >= 0
    &&& condition.len() == 4 * m + 3
    &&& forall|k: int| 0 <= k <= m ==> !is_connective(#[trigger] column_token(condition, k))
    &&& forall|k: int| 1 <= k <= m ==> joins(#[trigger] joint_token(condition, k))
}

/// What the first `k + 1` comparisons decide when they are taken strictly
/// from left to right: what the first `k` decide, joined with the `k`-th
/// by the connective between them.
pub open spec fn left_to_right(
    row: Seq<Seq<char>>,
    condition: Seq<Seq<char>>,
    headers: Seq<Seq<char>>,
    k: int,
) -> bool
    decreases k,
{
    if k <= 0 {
        comparison_at(row, condition, headers, 0)
    } else {
        joined(
            left_to_right(row, condition, headers, k - 1),
            comparison_at(row, condition, headers, 4 * k),
            joint_token(condition, k),
        )
    }
}

/// From the `j`-th comparison on, the results and connectives that are
/// read are those of the comparisons and of the tokens between them.
proof fn lemma_reading_joined(
    row: Seq<Seq<char>>,
    condition: Seq<Seq<char>>,
    headers: Seq<Seq<char>>,
    m: int,
    j: int,
)
    requires
        joins_comparisons(condition, m),
        0 <= j <= m,
    ensures
        comparisons_from(row, condition, headers, 4 * j).len() == m - j + 1,
        forall|t: int|
            0 <= t <= m - j ==> #[trigger] comparisons_from(row, condition, headers, 4 * j)[t]
                == comparison_at(row, condition, headers, 4 * (j + t)),
        connectives_from(condition, 4 * j).len() == m - j,
        forall|t: int|
            0 <= t < m - j ==> #[trigger] connectives_from(condition, 4 * j)[t] == joint_token(
                condition,
                j + t + 1,
            ),
    decreases m - j,
{
    assert(!is_connective(column_token(condition, j)));
    if j < m {
        lemma_reading_joined(row, condition, headers, m, j + 1);
        assert(joins(joint_token(condition, j + 1)));
        assert(is_connective(condition[4 * j + 3]));
        let rest = comparisons_from(row, condition, headers, 4 * (j + 1));
        assert(comparisons_from(row, condition, headers, 4 * j + 3) == rest);
        assert(comparisons_from(row, condition, headers, 4 * j) == seq![
            comparison_at(row, condition, headers, 4 * j),
        ] + rest);
        assert forall|t: int| 0 <= t <= m - j implies #[trigger] comparisons_from(
            row,
            condition,
            headers,
            4 * j,
        )[t] == comparison_at(row, condition, headers, 4 * (j + t)) by {
            if t > 0 {
                assert(rest[t - 1] == comparison_at(
                    row,
                    condition,
                    headers,
                    4 * (j + 1 + (t - 1)),
                ));
            }
        }
        let others = connectives_from(condition, 4 * (j + 1));
        assert(connectives_from(condition, 4 * j + 3) == seq![condition[4 * j + 3]] + others);
        assert(connectives_from(condition, 4 * j) == seq![condition[4 * j + 3]] + others);
        assert forall|t: int| 0 <= t < m - j implies #[trigger] connectives_from(
            condition,
            4 * j,
        )[t] == joint_token(condition, j + t + 1) by {
            if t > 0 {
                assert(others[t - 1] == joint_token(condition, j + 1 + (t - 1) + 1));
            }
        }
    } else {
        assert(comparisons_from(row, condition, headers, 4 * j + 3) =~= Seq::<bool>::empty());
        assert(connectives_from(condition, 4 * j + 3) =~= Seq::<Seq<char>>::empty());
    }
}

/// Taking the connectives one by one from the `k`-th on, with what the
/// first `k + 1` comparisons decide, ends with what all of them decide.
proof fn lemma_folding_joined(
    row: Seq<Seq<char>>,
    condition: Seq<Seq<char>>,
    headers: Seq<Seq<char>>,
    m: int,
    k: int,
)
    requires
        joins_comparisons(condition, m),
        0 <= k <= m,
    ensures
        folded_from(
            comparisons_from(row, condition, headers, 0),
            connectives_from(condition, 0),
            k,
            left_to_right(row, condition, headers, k),
        ) == left_to_right(row, condition, headers, m),
    decreases m - k,
{
    lemma_reading_joined(row, condition, headers, m, 0);
    let results = comparisons_from(row, condition, headers, 0);
    let connectives = connectives_from(condition, 0);
    if k < m {
        lemma_folding_joined(row, condition, headers, m, k + 1);
        assert(connectives[k] == joint_token(condition, k + 1));
        assert(joins(joint_token(condition, k + 1)));
        assert(results[k + 1] == comparison_at(row, condition, headers, 4 * (k + 1)));
    }
}

/// Left-to-right evaluation: of comparisons joined by `and` and `or`, a
/// row meets the condition exactly when the comparisons, taken strictly
/// from left to right, decide so. No connective binds tighter than
/// another.
pub proof fn lemma_left_to_right(
    row: Seq<Seq<char>>,
    condition: Seq<Seq<char>>,
    headers: Seq<Seq<char>>,
    m: int,
)
    requires
        joins_comparisons(condition, m),
    ensures
        row_matches(row, condition, headers) == left_to_right(row, condition, headers, m),
{
    if m > 0 {
        lemma_reading_joined(row, condition, headers, m, 0);
        lemma_folding_joined(row, condition, headers, m, 0);
    }
}

/// `A or B and C` is `(A or B) and C`: the connectives are taken from left
/// to right, and `and` does not bind tighter than `or`.
pub proof fn lemma_or_then_and(
    row: Seq<Seq<char>>,
    condition: Seq<Seq<char>>,
    headers: Seq<Seq<char>>,
)
    requires
        condition.len() == 11,
        !is_connective(condition[0]),
        condition[3] == "or"@,
        !is_connective(condition[4]),
        condition[7] == "and"@,
        !is_connective(condition[8]),
    ensures
        row_matches(row, condition, headers) == ((comparison_at(row, condition, headers, 0)
            || comparison_at(row, condition, headers, 4)) && comparison_at(
            row,
            condition,
            headers,
            8,
        )),
{
    reveal_strlit("or");
    reveal_strlit("and");
    assert("and"@ != "or"@) by {
        assert("and"@.len() != "or"@.len());
    }
    assert(joins_comparisons(condition, 2)) by {
        assert forall|k: int| 0 <= k <= 2 implies !is_connective(
            #[trigger] column_token(condition, k),
        ) by {
            assert(k == 0 || k == 1 || k == 2);
        }
        assert forall|k: int| 1 <= k <= 2 implies joins(#[trigger] joint_token(condition, k)) by {
            assert(k == 1 || k == 2);
        }
    }
    lemma_left_to_right(row, condition, headers, 2);
    assert(joint_token(condition, 1) == "or"@);
    assert(joint_token(condition, 2) == "and"@);
    assert(left_to_right(row, condition, headers, 1) == (comparison_at(row, condition, headers, 0)
        || comparison_at(row, condition, headers, 4))) by {
        assert(left_to_right(row, condition, headers, 0) == comparison_at(
            row,
            condition,
            headers,
            0,
        ));
    }
}

/// Where the fields of two rows have no order under a key, the next key
/// decides between the rows.
pub proof fn lemma_tie_falls_through(
    a: Seq<Seq<char>>,
    b: Seq<Seq<char>>,
    directions: Map<usize, Seq<char>>,
    keys: Seq<usize>,
    k: int,
)
    requires
        0 <= k < keys.len(),
        !column_before(a[keys[k] as int], b[keys[k] as int]),
        !column_before(b[keys[k] as int], a[keys[k] as int]),
    ensures
        row_before(a, b, directions, keys, k) == row_before(a, b, directions, keys, k + 1),
{
}

/// An arrangement that never puts a later line in front of an earlier one
/// leaves every line in its place.
pub proof fn lemma_rising_arrangement(order: Seq<usize>, n: int, i: int)
    requires
        is_arrangement(order, n),
        forall|x: int, y: int| 0 <= x < y < n ==> order[x] <= order[y],
        0 <= i < n,
    ensures
        order[i] == i,
{
    lemma_rising_from_below(order, n, i);
    lemma_rising_from_above(order, n, i);
}

proof fn lemma_rising_from_below(order: Seq<usize>, n: int, i: int)
    requires
        is_arrangement(order, n),
        forall|x: int, y: int| 0 <= x < y < n ==> order[x] <= order[y],
        0 <= i < n,
    ensures
        order[i] >= i,
    decreases i,
{
    if i > 0 {
        lemma_rising_from_below(order, n, i - 1);
        assert(order[i - 1] != order[i]);
    }
}

proof fn lemma_rising_from_above(order: Seq<usize>, n: int, i: int)
    requires
        is_arrangement(order, n),
        forall|x: int, y: int| 0 <= x < y < n ==> order[x] <= order[y],
        0 <= i < n,
    ensures
        order[i] <= i,
    decreases n - i,
{
    if i < n - 1 {
        lemma_rising_from_above(order, n, i + 1);
        assert(order[i] != order[i + 1]);
    } else {
        assert(order[i] < n);
    }
}

/// Sorting by no key leaves the lines as they are.
pub proof fn lemma_sorting_without_keys(
    lines: Seq<Seq<char>>,
    order: Seq<usize>,
    directions: Map<usize, Seq<char>>,
)
    requires
        sorts(lines, order, directions, Seq::empty(), lines.len() as int),
    ensures
        arranged(lines, order) == lines,
{
    let n = lines.len() as int;
    assert forall|x: int, y: int| 0 <= x < y < n implies order[x] <= order[y] by {
        assert(moved_for_cause(lines, order, directions, Seq::empty(), x, y));
    }
    assert forall|i: int| 0 <= i < n implies order[i] == i by {
        lemma_rising_arrangement(order, n, i);
    }
    assert(arranged(lines, order) =~= lines);
}

/// Sorting loses no line: each of the first `n` lines has a position in
/// their sorted order, which is returned.
pub proof fn lemma_sorted_order_holds_all(
    lines: Seq<Seq<char>>,
    directions: Map<usize, Seq<char>>,
    keys: Seq<usize>,
    n: nat,
    line: int,
) -> (at: int)
    requires
        n <= usize::MAX,
        0 <= line < n,
    ensures
        0 <= at < n,
        sorted_order(lines, directions, keys, n).len() == n,
        sorted_order(lines, directions, keys, n)[at] == line,
    decreases n,
{
    let before = sorted_order(lines, directions, keys, (n - 1) as nat);
    let place = place_of(lines, before, directions, keys, n - 1, n - 1);
    lemma_place_of(lines, before, directions, keys, n - 1, n - 1);
    lemma_sorted_order_len(lines, directions, keys, (n - 1) as nat);
    if line == n - 1 {
        place
    } else {
        let earlier = lemma_sorted_order_holds_all(
            lines,
            directions,
            keys,
            (n - 1) as nat,
            line,
        );
        if earlier < place {
            earlier
        } else {
            earlier + 1
        }
    }
}

/// The sorted order of `n` lines has `n` positions.
pub proof fn lemma_sorted_order_len(
    lines: Seq<Seq<char>>,
    directions: Map<usize, Seq<char>>,
    keys: Seq<usize>,
    n: nat,
)
    ensures
        sorted_order(lines, directions, keys, n).len() == n,
    decreases n,
{
    if n > 0 {
        let before = sorted_order(lines, directions, keys, (n - 1) as nat);
        lemma_sorted_order_len(lines, directions, keys, (n - 1) as nat);
        lemma_place_of(lines, before, directions, keys, n - 1, n - 1);
    }
}

/// Whether line `b` may follow line `a`: it does not belong in front of it.
pub open spec fn may_follow(
    lines: Seq<Seq<char>>,
    directions: Map<usize, Seq<char>>,
    keys: Seq<usize>,
    a: int,
    b: int,
) -> bool {
    !line_before(lines[b], lines[a], directions, keys)
}

/// Whether the keys order the lines consistently: where `b` may follow `a`
/// and `c` may follow `b`, `c` may follow `a`.
pub open spec fn orders_consistently(
    lines: Seq<Seq<char>>,
    directions: Map<usize, Seq<char>>,
    keys: Seq<usize>,
) -> bool {
    forall|a: int, b: int, c: int|
        {
            &&& 0 <= a < lines.len()
            &&& 0 <= b < lines.len()
            &&& 0 <= c < lines.len()
            &&& #[trigger] may_follow(lines, directions, keys, a, b)
            &&& #[trigger] may_follow(lines, directions, keys, b, c)
        } ==> may_follow(lines, directions, keys, a, c)
}

/// Where the keys order the lines consistently, the sorted lines are in
/// order throughout: no line belongs in front of any line before it.
pub proof fn lemma_sorted_throughout(
    lines: Seq<Seq<char>>,
    directions: Map<usize, Seq<char>>,
    keys: Seq<usize>,
    i: int,
    j: int,
)
    requires
        lines.len() <= usize::MAX,
        orders_consistently(lines, directions, keys),
        0 <= i <= j < lines.len(),
    ensures
        !line_before(
            sorted(lines, directions, keys)[j],
            sorted(lines, directions, keys)[i],
            directions,
            keys,
        ),
    decreases j - i,
{
    let order = sorted_order(lines, directions, keys, lines.len());
    lemma_sorted_order_sorts(lines, directions, keys, lines.len());
    assert(order[i] < lines.len() && order[j] < lines.len());
    if i == j {
        lemma_row_before_asymmetric(
            split(lines[order[i] as int], ','),
            split(lines[order[i] as int], ','),
            directions,
            keys,
            0,
        );
    } else {
        lemma_sorted_throughout(lines, directions, keys, i, j - 1);
        assert(order[j - 1] < lines.len());
        assert(neighbours_in_order(lines, order, directions, keys, j - 1));
        assert(may_follow(lines, directions, keys, order[i] as int, order[j - 1] as int));
        assert(may_follow(lines, directions, keys, order[j - 1] as int, order[j] as int));
        assert(may_follow(lines, directions, keys, order[i] as int, order[j] as int));
    }
}

/// A condition of fewer than three tokens keeps every line and has no fault.
pub proof fn lemma_short_condition_keeps_all(
    lines: Seq<Seq<char>>,
    condition: Seq<Seq<char>>,
    headers: Seq<Seq<char>>,
)
    requires
        condition.len() < 3,
    ensures
        first_fault(lines, condition, headers) is None,
        kept_of(lines, condition, headers) == lines,
    decreases lines.len(),
{
    if lines.len() > 0 {
        lemma_short_condition_keeps_all(lines.drop_last(), condition, headers);
        assert(lines.drop_last().push(lines.last()) =~= lines);
    } else {
        assert(kept_of(lines, condition, headers) =~= lines);
    }
}

/// Round trip: once a row is inserted, a `SELECT *` without condition shows
/// the table: the header line without the whitespace around it, every
/// data line as it is, and the inserted row as the last line. The fields of
/// that line are the inserted row: under each header the value given for
/// it, and nothing under the others. This holds of a table that has its
/// header line, and of values that hold no comma.
pub proof fn lemma_insert_then_select(
    table: Seq<Seq<char>>,
    insert_query: InsertQueryView,
    select_query: SelectQueryView,
)
    requires
        1 <= table.len() < usize::MAX,
        insert_query.columns.len() == insert_query.values.len(),
        free_of(insert_query.values, ','),
        shows_all(select_query.columns),
        select_query.condition.len() == 0,
        select_query.order_by.len() == 0,
    ensures
        select_result(inserted(table, insert_query), select_query) is Ok,
        ({
            let shown = select_result(inserted(table, insert_query), select_query)->Ok_0;
            &&& shown.len() == table.len() + 1
            &&& shown[0] == strip(table[0], Trim::Whitespace)
            &&& forall|i: int| 1 <= i < table.len() ==> shown[i] == table[i]
            &&& split(shown.last(), ',') == inserted_row(
                headers_of(table),
                insert_query.columns,
                insert_query.values,
            )
        }),
{
    let after = inserted(table, insert_query);
    let headers = headers_of(table);
    let row = inserted_row(headers, insert_query.columns, insert_query.values);
    let lines = data_of(after);
    assert(headers_of(after) == headers);
    lemma_short_condition_keeps_all(lines, select_query.condition, headers);
    let directions = directions_from(select_query.order_by, headers, 0, Map::empty());
    let keys = keys_from(select_query.order_by, headers, 0);
    assert(keys =~= Seq::<usize>::empty());
    lemma_sorted_order_sorts(lines, directions, keys, lines.len());
    lemma_sorting_without_keys(
        lines,
        sorted_order(lines, directions, keys, lines.len()),
        directions,
    );
    lemma_split_nonempty(strip(table[0], Trim::Whitespace), ',');
    lemma_join_split(strip(table[0], Trim::Whitespace), ',');
    assert(free_of(row, ',')) by {
        assert forall|i: int, j: int|
            0 <= i < row.len() && 0 <= j < row[i].len() implies #[trigger] row[i][j] != ',' by {
            if column_of(insert_query.columns, headers[i]) is Some {
                let c = column_of(insert_query.columns, headers[i])->0;
                lemma_first_from(insert_query.columns, headers[i], 0);
                assert(0 <= c < insert_query.values.len());
                assert(row[i] == insert_query.values[c]);
                assert(insert_query.values[c][j] != ',');
            }
        }
    }
    lemma_split_join(row, ',');
}

/// No line that meets the condition is left among the spared lines, and
/// the spared and the kept lines are all the lines there were.
pub proof fn lemma_spared_lines(
    lines: Seq<Seq<char>>,
    condition: Seq<Seq<char>>,
    headers: Seq<Seq<char>>,
)
    ensures
        forall|i: int|
            0 <= i < spared(lines, condition, headers).len() ==> !meets(
                #[trigger] spared(lines, condition, headers)[i],
                condition,
                headers,
            ),
        spared(lines, condition, headers).len() + kept_of(lines, condition, headers).len()
            == lines.len(),
    decreases lines.len(),
{
    if lines.len() > 0 {
        lemma_spared_lines(lines.drop_last(), condition, headers);
    }
}

/// A `DELETE` removes exactly the lines that meet the condition: the first
/// line stays, no data line that is left meets the condition, and as many
/// lines are gone as met it.
pub proof fn lemma_delete_removes_matching(table: Seq<Seq<char>>, query: DeleteQueryView)
    requires
        table.len() >= 1,
    ensures
        deleted(table, query)[0] == table[0],
        forall|i: int|
            1 <= i < deleted(table, query).len() ==> !meets(
                #[trigger] deleted(table, query)[i],
                query.condition,
                headers_of(table),
            ),
        deleted(table, query).len() + kept_of(
            data_of(table),
            query.condition,
            headers_of(table),
        ).len() == table.len(),
{
    let left = spared(data_of(table), query.condition, headers_of(table));
    lemma_spared_lines(data_of(table), query.condition, headers_of(table));
    assert forall|i: int| 1 <= i < deleted(table, query).len() implies !meets(
        #[trigger] deleted(table, query)[i],
        query.condition,
        headers_of(table),
    ) by {
        assert(deleted(table, query)[i] == left[i - 1]);
    }
}

/// An `INSERT` with more or fewer tokens between the table and `values`
/// than behind `values` is a syntax error.
pub proof fn lemma_insert_count_mismatch(tokens: Seq<Seq<char>>)
    requires
        tokens.len() >= 1,
        tokens[0] == "insert"@,
        first_from(tokens, "values"@, 0) - 3 != tokens.len() - first_from(tokens, "values"@, 0)
            - 1,
    ensures
        !InsertParser.accepts(tokens),
        query_of(tokens) == Err::<QueryView, ErrorType>(ErrorType::InvalidSyntax),
{
    reveal_strlit("insert");
    reveal_strlit("select");
    assert("insert"@ != "select"@) by {
        assert("insert"@[0] != "select"@[0]);
    }
}

/// An `UPDATE` with a condition rewrites only the targeted fields of the
/// lines that meet the condition. The first line and the lines that do not
/// meet the condition stay as they are, to the character. A line that
/// meets it comes to have one field for each header: the new value under
/// each targeted header, and its old field under every other. This is said
/// of the fields where no new value holds a comma.
pub proof fn lemma_update_touches_only_targets(
    table: Seq<Seq<char>>,
    query: UpdateQueryView,
    i: int,
    p: int,
)
    requires
        query.condition.len() > 0,
        update_fault(table, query) is None,
        0 <= i < table.len(),
        0 <= p < headers_of(table).len(),
    ensures
        updated(table, query).len() == table.len(),
        i == 0 || !meets(table[i], query.condition, headers_of(table)) ==> updated(
            table,
            query,
        )[i] == table[i],
        i >= 1 && meets(table[i], query.condition, headers_of(table)) && free_of(
            query.values,
            ',',
        ) ==> {
            &&& split(updated(table, query)[i], ',').len() == headers_of(table).len()
            &&& split(updated(table, query)[i], ',')[p] == match column_of(
                query.columns,
                headers_of(table)[p],
            ) {
                Some(c) => query.values[c],
                None => split(table[i], ',')[p],
            }
        },
{
    let headers = headers_of(table);
    lemma_split_nonempty(strip(header_line(table), Trim::Whitespace), ',');
    if i >= 1 && meets(table[i], query.condition, headers) && free_of(query.values, ',') {
        let old_row = split(table[i], ',');
        let new_row = updated_row(headers, query.columns, query.values, old_row);
        assert(data_of(table)[i - 1] == table[i]);
        assert(old_row.len() >= headers.len());
        lemma_split_free_of(table[i], ',');
        assert(free_of(new_row, ',')) by {
            assert forall|x: int, y: int|
                0 <= x < new_row.len() && 0 <= y < new_row[x].len() implies #[trigger] new_row[x][y]
                != ',' by {
                match column_of(query.columns, headers[x]) {
                    Some(c) => {
                        lemma_first_from(query.columns, headers[x], 0);
                        assert(query.values[c][y] != ',');
                    },
                    None => {
                        assert(old_row[x][y] != ',');
                    },
                }
            }
        }
        lemma_split_join(new_row, ',');
    }
}

/// From any position on, the assignments have as many targets as values.
pub proof fn lemma_assignments_pair(tokens: Seq<Seq<char>>, i: int)
    ensures
        assigned_columns(tokens, i).len() == assigned_values(tokens, i).len(),
    decreases tokens.len() - i,
{
    if 0 <= i < tokens.len() {
        if assigns_at(tokens, i) {
            lemma_assignments_pair(tokens, i + 2);
        } else if tokens[i] != "where"@ {
            lemma_assignments_pair(tokens, i + 1);
        }
    }
}

/// A parsed `INSERT` or `UPDATE` has one value for each column.
pub proof fn lemma_parsed_lists_match(tokens: Seq<Seq<char>>)
    ensures
        match query_of(tokens) {
            Ok(QueryView::Insert(q)) => q.columns.len() == q.values.len(),
            Ok(QueryView::Update(q)) => q.columns.len() == q.values.len(),
            _ => true,
        },
{
    reveal_strlit("select");
    reveal_strlit("insert");
    reveal_strlit("delete");
    reveal_strlit("update");
    assert("select"@[0] != "insert"@[0] && "select"@[0] != "delete"@[0] && "select"@[0]
        != "update"@[0]);
    assert("insert"@[0] != "delete"@[0] && "insert"@[0] != "update"@[0]);
    assert("delete"@[0] != "update"@[0]);
    match query_of(tokens) {
        Ok(QueryView::Insert(q)) => {
            assert(tokens[0] == "insert"@);
            assert(InsertParser.accepts(tokens));
            assert(first_from(tokens, "insert"@, 0) == 0);
        },
        Ok(QueryView::Update(q)) => {
            lemma_assignments_pair(tokens, assignments_start(tokens));
        },
        _ => {},
    }
}

/// No query rewrites the header: a table that has its first line keeps it,
/// whatever the query and whether it fails or not.
pub proof fn lemma_header_stays(
    query: QueryView,
    before: Seq<Seq<char>>,
    after: Seq<Seq<char>>,
    shown: Result<Seq<Seq<char>>, ErrorType>,
)
    requires
        before.len() >= 1,
        carries(query, before, after, shown),
    ensures
        after.len() >= 1,
        after[0] == before[0],
{
}

/// The effect of a query says what a run that succeeds does to the table:
/// a query that shows leaves it as it is; one that appends adds one line
/// behind the lines there were; one that rewrites shows nothing and leaves
/// no more lines than there were.
pub proof fn lemma_effect(
    query: QueryView,
    before: Seq<Seq<char>>,
    after: Seq<Seq<char>>,
    shown: Result<Seq<Seq<char>>, ErrorType>,
)
    requires
        carries(query, before, after, shown),
        shown is Ok,
    ensures
        match effect_of(query) {
            Effect::Show => after == before,
            Effect::Append => after.len() == before.len() + 1 && after.drop_last() == before
                && shown->Ok_0.len() == 0,
            Effect::Rewrite => after.len() <= before.len() && shown->Ok_0.len() == 0,
        },
{
    match query {
        QueryView::Insert(q) => {
            assert(after.drop_last() =~= before);
        },
        QueryView::Delete(q) => {
            lemma_spared_lines(data_of(before), q.condition, headers_of(before));
        },
        QueryView::Update(q) => {
            if q.condition.len() == 0 {
                assert(after.drop_last() =~= before);
            }
        },
        _ => {},
    }
}

} // verus!
