//! The order of rows: texts by their characters, fields by their values,
//! rows by a list of keys, each ascending or descending.

use crate::condition::owned_headers;
use crate::extras::{cast_to_value, column_of, find_column, value_of, Scalar, Value};
use crate::fields::{split, split_line};
use crate::text::{chars_of, lowercase, same_text, to_lower};
use std::cmp::Ordering;
use std::collections::HashMap;
use vstd::prelude::*;
use vstd::string::*;

verus! {

broadcast use {vstd::string::group_string_axioms, vstd::std_specs::hash::group_hash_axioms};

/// Whether text `a` stands before text `b` in the order of their
/// characters: at the first place where they differ `a` has the lesser
/// character, or `a` ends there and `b` does not.
pub open spec fn text_before(a: Seq<char>, b: Seq<char>) -> bool
    decreases a.len(),
{
    if b.len() == 0 {
        false
    } else if a.len() == 0 {
        true
    } else if a[0] != b[0] {
        a[0] < b[0]
    } else {
        text_before(a.skip(1), b.skip(1))
    }
}

/// Of two texts at most one stands before the other.
pub proof fn lemma_text_before_asymmetric(a: Seq<char>, b: Seq<char>)
    ensures
        !(text_before(a, b) && text_before(b, a)),
    decreases a.len(),
{
    if a.len() > 0 && b.len() > 0 && a[0] == b[0] {
        lemma_text_before_asymmetric(a.skip(1), b.skip(1));
    }
}

/// Tells whether text `a` stands before text `b`.
pub fn text_precedes(a: &str, b: &str) -> (r: bool)
    ensures
        r == text_before(a@, b@),
{
    let x = chars_of(a);
    let y = chars_of(b);
    let mut i: usize = 0;
    assert(a@.skip(0) =~= a@);
    assert(b@.skip(0) =~= b@);
    while i < x.len() && i < y.len()
        invariant
            i <= x.len(),
            i <= y.len(),
            x@ == a@,
            y@ == b@,
            text_before(a@, b@) == text_before(a@.skip(i as int), b@.skip(i as int)),
        decreases x.len() - i,
    {
        if x[i] != y[i] {
            return x[i] < y[i];
        }
        proof {
            assert(a@.skip(i as int).skip(1) =~= a@.skip(i + 1));
            assert(b@.skip(i as int).skip(1) =~= b@.skip(i + 1));
        }
        i = i + 1;
    }
    i < y.len()
}

/// Whether value `a` stands before value `b`: an integer before a greater
/// integer, a text before a text that follows it when both are in lower
/// case. An integer and a text have no order.
pub open spec fn value_before(a: Scalar, b: Scalar) -> bool {
    match (a, b) {
        (Scalar::Int(x), Scalar::Int(y)) => x < y,
        (Scalar::Str(s), Scalar::Str(t)) => text_before(lowercase(s), lowercase(t)),
        _ => false,
    }
}

/// Whether field `a` stands before field `b`, each read as a value.
pub open spec fn column_before(a: Seq<char>, b: Seq<char>) -> bool {
    value_before(value_of(a), value_of(b))
}

/// Of two fields at most one stands before the other.
pub proof fn lemma_column_before_asymmetric(a: Seq<char>, b: Seq<char>)
    ensures
        !(column_before(a, b) && column_before(b, a)),
{
    match (value_of(a), value_of(b)) {
        (Scalar::Str(s), Scalar::Str(t)) => {
            lemma_text_before_asymmetric(lowercase(s), lowercase(t));
        },
        _ => {},
    }
}

/// Tells whether field `val_a` stands before field `val_b`.
pub fn column_precedes(val_a: &str, val_b: &str) -> (r: bool)
    ensures
        r == column_before(val_a@, val_b@),
{
    let val_a = cast_to_value(val_a);
    let val_b = cast_to_value(val_b);
    match (val_a, val_b) {
        (Value::Int(i1), Value::Int(i2)) => i1 < i2,
        (Value::Str(s1), Value::Str(s2)) => {
            let s1 = to_lower(s1.as_str());
            let s2 = to_lower(s2.as_str());
            text_precedes(s1.as_str(), s2.as_str())
        },
        _ => false,
    }
}

/// The directions that a map of column positions holds, as texts.
pub open spec fn directions_of(order_map: Map<usize, String>) -> Map<usize, Seq<char>> {
    Map::new(|key: usize| order_map.contains_key(key), |key: usize| order_map[key]@)
}

/// Whether row `a` stands before row `b` by the keys from the `k`-th on. The
/// first key with a direction on which the two fields have an order
/// decides: by that order where the direction is `asc`, by its reverse
/// otherwise. Where no key decides, neither row stands before the other.
pub open spec fn row_before(
    a: Seq<Seq<char>>,
    b: Seq<Seq<char>>,
    directions: Map<usize, Seq<char>>,
    keys: Seq<usize>,
    k: int,
) -> bool
    decreases keys.len() - k,
{
    if k < 0 || k >= keys.len() {
        false
    } else if !directions.contains_key(keys[k]) {
        row_before(a, b, directions, keys, k + 1)
    } else if column_before(a[keys[k] as int], b[keys[k] as int]) {
        directions[keys[k]] == "asc"@
    } else if column_before(b[keys[k] as int], a[keys[k] as int]) {
        directions[keys[k]] != "asc"@
    } else {
        row_before(a, b, directions, keys, k + 1)
    }
}

/// Of two rows at most one stands before the other.
pub proof fn lemma_row_before_asymmetric(
    a: Seq<Seq<char>>,
    b: Seq<Seq<char>>,
    directions: Map<usize, Seq<char>>,
    keys: Seq<usize>,
    k: int,
)
    ensures
        !(row_before(a, b, directions, keys, k) && row_before(b, a, directions, keys, k)),
    decreases keys.len() - k,
{
    if 0 <= k < keys.len() {
        lemma_column_before_asymmetric(a[keys[k] as int], b[keys[k] as int]);
        lemma_row_before_asymmetric(a, b, directions, keys, k + 1);
    }
}

/// Whether every key that has a direction finds its field in a row of
/// `width` fields.
pub open spec fn keys_fit(directions: Map<usize, Seq<char>>, keys: Seq<usize>, width: int) -> bool {
    forall|k: int|
        0 <= k < keys.len() && directions.contains_key(#[trigger] keys[k]) ==> keys[k] < width
}

/// Tells whether row `a` stands before row `b`.
pub fn row_precedes(
    a: &Vec<String>,
    b: &Vec<String>,
    order_map: &HashMap<usize, String>,
    insertion_order: &Vec<usize>,
) -> (r: bool)
    requires
        keys_fit(directions_of(order_map@), insertion_order@, a.len() as int),
        keys_fit(directions_of(order_map@), insertion_order@, b.len() as int),
    ensures
        r == row_before(
            a.deep_view(),
            b.deep_view(),
            directions_of(order_map@),
            insertion_order@,
            0,
        ),
{
    let n: usize = insertion_order.len();
    let ghost directions = directions_of(order_map@);
    let mut k: usize = 0;
    while k < n
        invariant
            k <= n,
            n == insertion_order.len(),
            directions == directions_of(order_map@),
            keys_fit(directions, insertion_order@, a.len() as int),
            keys_fit(directions, insertion_order@, b.len() as int),
            row_before(a.deep_view(), b.deep_view(), directions, insertion_order@, 0)
                == row_before(a.deep_view(), b.deep_view(), directions, insertion_order@, k as int),
        decreases n - k,
    {
        let index: usize = insertion_order[k];
        match order_map.get(&index) {
            Some(order) => {
                assert(directions.contains_key(insertion_order@[k as int]));
                assert(directions[index] == order@);
                if column_precedes(a[index].as_str(), b[index].as_str()) {
                    return same_text(order.as_str(), "asc");
                }
                if column_precedes(b[index].as_str(), a[index].as_str()) {
                    return !same_text(order.as_str(), "asc");
                }
            },
            None => {
                assert(!directions.contains_key(insertion_order@[k as int]));
            },
        }
        k = k + 1;
    }
    false
}

/// Whether a direction follows the key at `i`.
pub open spec fn names_direction(order_by: Seq<Seq<char>>, i: int) -> bool {
    i + 1 < order_by.len() && (order_by[i + 1] == "asc"@ || order_by[i + 1] == "desc"@)
}

/// The position that stands for a column as a key: its position in the
/// header, or the greatest position of all where the header lacks it.
pub open spec fn key_of(headers: Seq<Seq<char>>, name: Seq<char>) -> usize {
    match column_of(headers, name) {
        Some(at) => at as usize,
        None => usize::MAX,
    }
}

/// The direction of the key at `i`: the token behind it where that is `asc`
/// or `desc`, `asc` otherwise.
pub open spec fn direction_at(order_by: Seq<Seq<char>>, i: int) -> Seq<char> {
    if names_direction(order_by, i) {
        order_by[i + 1]
    } else {
        "asc"@
    }
}

/// Where the key behind the one at `i` stands.
pub open spec fn next_key(order_by: Seq<Seq<char>>, i: int) -> int {
    if names_direction(order_by, i) {
        i + 2
    } else {
        i + 1
    }
}

/// The keys from `i` on, in the order in which they are written.
pub open spec fn keys_from(order_by: Seq<Seq<char>>, headers: Seq<Seq<char>>, i: int) -> Seq<usize>
    decreases order_by.len() - i,
{
    if i < 0 || i >= order_by.len() {
        Seq::empty()
    } else {
        seq![key_of(headers, order_by[i])] + keys_from(order_by, headers, next_key(order_by, i))
    }
}

/// The directions by key, once the keys from `i` on are added to those
/// found so far. A key that is written twice keeps its last direction.
pub open spec fn directions_from(
    order_by: Seq<Seq<char>>,
    headers: Seq<Seq<char>>,
    i: int,
    so_far: Map<usize, Seq<char>>,
) -> Map<usize, Seq<char>>
    decreases order_by.len() - i,
{
    if i < 0 || i >= order_by.len() {
        so_far
    } else {
        directions_from(
            order_by,
            headers,
            next_key(order_by, i),
            so_far.insert(key_of(headers, order_by[i]), direction_at(order_by, i)),
        )
    }
}

/// Reads the keys of an `ORDER BY`: for each key its column's position, in
/// the order written, and the direction for each position.
pub fn parse_order_by(order_by: &[String], headers: &[&str]) -> (r: (
    HashMap<usize, String>,
    Vec<usize>,
))
    ensures
        r.1@ == keys_from(order_by.deep_view(), headers.deep_view(), 0),
        directions_of(r.0@) == directions_from(
            order_by.deep_view(),
            headers.deep_view(),
            0,
            Map::empty(),
        ),
{
    let headers_vec = owned_headers(headers);
    read_order_by(order_by, &headers_vec)
}

/// Reads the keys of an `ORDER BY` against a header held as strings.
pub fn read_order_by(order_by: &[String], headers: &Vec<String>) -> (r: (
    HashMap<usize, String>,
    Vec<usize>,
))
    ensures
        r.1@ == keys_from(order_by.deep_view(), headers.deep_view(), 0),
        directions_of(r.0@) == directions_from(
            order_by.deep_view(),
            headers.deep_view(),
            0,
            Map::empty(),
        ),
{
    let mut order_map: HashMap<usize, String> = HashMap::new();
    let mut insertion_order: Vec<usize> = Vec::new();
    let n: usize = order_by.len();
    let ghost tokens = order_by.deep_view();
    let ghost names = headers.deep_view();
    let mut i: usize = 0;
    assert(directions_of(order_map@) =~= Map::empty());
    while i < n
        invariant
            n == order_by.len(),
            tokens == order_by.deep_view(),
            names == headers.deep_view(),
            keys_from(tokens, names, 0) == insertion_order@ + keys_from(tokens, names, i as int),
            directions_from(tokens, names, 0, Map::empty()) == directions_from(
                tokens,
                names,
                i as int,
                directions_of(order_map@),
            ),
        decreases n - i,
    {
        let ghost keys_before = insertion_order@;
        let ghost map_before = order_map@;
        let column_index: usize = match find_column(headers.as_slice(), order_by[i].as_str()) {
            Some(at) => at,
            None => usize::MAX,
        };
        assert(column_index == key_of(names, tokens[i as int]));
        let direction = if n - i > 1 && (same_text(order_by[i + 1].as_str(), "asc") || same_text(
            order_by[i + 1].as_str(),
            "desc",
        )) {
            let direction = order_by[i + 1].clone();
            i = i + 2;
            direction
        } else {
            i = i + 1;
            String::from_str("asc")
        };
        insertion_order.push(column_index);
        order_map.insert(column_index, direction);
        proof {
            assert(directions_of(order_map@) =~= directions_of(map_before).insert(
                column_index,
                direction@,
            ));
            assert(keys_before + (seq![column_index] + keys_from(tokens, names, i as int))
                =~= keys_before.push(column_index) + keys_from(tokens, names, i as int));
        }
    }
    proof {
        assert(insertion_order@ + Seq::<usize>::empty() =~= insertion_order@);
    }
    (order_map, insertion_order)
}

/// Whether line `a` stands before line `b`: as their rows of fields do.
pub open spec fn line_before(
    a: Seq<char>,
    b: Seq<char>,
    directions: Map<usize, Seq<char>>,
    keys: Seq<usize>,
) -> bool {
    row_before(split(a, ','), split(b, ','), directions, keys, 0)
}

/// Whether every key that has a direction finds its field in every line.
pub open spec fn lines_fit(
    lines: Seq<Seq<char>>,
    directions: Map<usize, Seq<char>>,
    keys: Seq<usize>,
) -> bool {
    forall|i: int|
        0 <= i < lines.len() ==> keys_fit(
            directions,
            keys,
            #[trigger] split(lines[i], ',').len() as int,
        )
}

/// Whether `order` names each of the positions below `n` once.
pub open spec fn is_arrangement(order: Seq<usize>, n: int) -> bool {
    &&& order.len() == n
    &&& forall|i: int| 0 <= i < n ==> #[trigger] order[i] < n
    &&& forall|i: int, j: int| 0 <= i < j < n ==> #[trigger] order[i] != #[trigger] order[j]
}

/// Whether the line at `i` of an arrangement does not belong behind its
/// successor.
pub open spec fn neighbours_in_order(
    lines: Seq<Seq<char>>,
    order: Seq<usize>,
    directions: Map<usize, Seq<char>>,
    keys: Seq<usize>,
    i: int,
) -> bool {
    !line_before(lines[order[i + 1] as int], lines[order[i] as int], directions, keys)
}

/// Whether the lines at `i` and `j` of an arrangement kept their order, or
/// changed it because the one now in front stands before the other.
pub open spec fn moved_for_cause(
    lines: Seq<Seq<char>>,
    order: Seq<usize>,
    directions: Map<usize, Seq<char>>,
    keys: Seq<usize>,
    i: int,
    j: int,
) -> bool {
    order[i] > order[j] ==> line_before(
        lines[order[i] as int],
        lines[order[j] as int],
        directions,
        keys,
    )
}

/// Whether `order` sorts the first `n` lines: it arranges them so that no
/// line belongs behind its successor, and changes the order of two lines
/// only where the one stands before the other, so that lines between which
/// the keys do not decide stay as they were.
pub open spec fn sorts(
    lines: Seq<Seq<char>>,
    order: Seq<usize>,
    directions: Map<usize, Seq<char>>,
    keys: Seq<usize>,
    n: int,
) -> bool {
    &&& is_arrangement(order, n)
    &&& forall|i: int|
        0 <= i < n - 1 ==> #[trigger] neighbours_in_order(lines, order, directions, keys, i)
    &&& forall|i: int, j: int|
        0 <= i < j < n ==> #[trigger] moved_for_cause(lines, order, directions, keys, i, j)
}

/// The lines in the order that an arrangement gives them.
pub open spec fn arranged(lines: Seq<Seq<char>>, order: Seq<usize>) -> Seq<Seq<char>> {
    Seq::new(order.len(), |i: int| lines[order[i] as int])
}

/// Putting line `n` where every line behind it belongs behind it, and the
/// line in front of it does not, extends a sorting of `n` lines by one.
proof fn lemma_insert_sorts(
    lines: Seq<Seq<char>>,
    order: Seq<usize>,
    directions: Map<usize, Seq<char>>,
    keys: Seq<usize>,
    n: int,
    at: int,
)
    requires
        0 <= at <= n < lines.len(),
        n <= usize::MAX,
        sorts(lines, order, directions, keys, n),
        forall|t: int|
            at <= t < n ==> line_before(
                lines[n],
                lines[#[trigger] order[t] as int],
                directions,
                keys,
            ),
        at > 0 ==> !line_before(lines[n], lines[order[at - 1] as int], directions, keys),
    ensures
        sorts(lines, order.insert(at, n as usize), directions, keys, n + 1),
{
    let grown = order.insert(at, n as usize);
    assert forall|i: int| 0 <= i < n + 1 implies #[trigger] grown[i] < n + 1 by {
        if i < at {
            assert(grown[i] == order[i]);
        } else if i > at {
            assert(grown[i] == order[i - 1]);
        }
    }
    assert forall|i: int, j: int| 0 <= i < j < n + 1 implies #[trigger] grown[i]
        != #[trigger] grown[j] by {
        let x = if i < at { i } else { i - 1 };
        let y = if j < at { j } else { j - 1 };
        if i != at && j != at {
            assert(grown[i] == order[x] && grown[j] == order[y]);
            assert(order[x] != order[y]);
        } else if i == at {
            assert(grown[j] == order[y]);
            assert(order[y] < n);
        } else {
            assert(grown[i] == order[x]);
            assert(order[x] < n);
        }
    }
    assert forall|i: int| 0 <= i < n implies #[trigger] neighbours_in_order(
        lines,
        grown,
        directions,
        keys,
        i,
    ) by {
        if i + 1 < at {
            assert(neighbours_in_order(lines, order, directions, keys, i));
        } else if i + 1 == at {
            assert(grown[i] == order[at - 1]);
        } else if i == at {
            assert(grown[i + 1] == order[at]);
            assert(line_before(lines[n], lines[order[at] as int], directions, keys));
            lemma_row_before_asymmetric(
                split(lines[n], ','),
                split(lines[order[at] as int], ','),
                directions,
                keys,
                0,
            );
        } else {
            assert(grown[i] == order[i - 1] && grown[i + 1] == order[i]);
            assert(neighbours_in_order(lines, order, directions, keys, i - 1));
        }
    }
    assert forall|i: int, j: int| 0 <= i < j < n + 1 implies #[trigger] moved_for_cause(
        lines,
        grown,
        directions,
        keys,
        i,
        j,
    ) by {
        let x = if i < at { i } else { i - 1 };
        let y = if j < at { j } else { j - 1 };
        if i != at && j != at {
            assert(grown[i] == order[x] && grown[j] == order[y]);
            assert(moved_for_cause(lines, order, directions, keys, x, y));
        } else if i == at {
            assert(grown[j] == order[y]);
            assert(line_before(lines[n], lines[order[y] as int], directions, keys));
        } else {
            assert(grown[i] == order[x]);
            assert(order[x] < n);
        }
    }
}

/// Where line `n` comes to stand among the lines before it, once those
/// are in `order`: from position `at` it moves towards the front past
/// every line that it stands before, and stops at the first that it does
/// not stand before.
pub open spec fn place_of(
    lines: Seq<Seq<char>>,
    order: Seq<usize>,
    directions: Map<usize, Seq<char>>,
    keys: Seq<usize>,
    n: int,
    at: int,
) -> int
    decreases at,
{
    if at > 0 && line_before(lines[n], lines[order[at - 1] as int], directions, keys) {
        place_of(lines, order, directions, keys, n, at - 1)
    } else {
        at
    }
}

/// The order into which the first `n` lines are sorted: the first `n - 1`
/// lines in their sorted order, with line `n - 1` put in its place among them.
pub open spec fn sorted_order(
    lines: Seq<Seq<char>>,
    directions: Map<usize, Seq<char>>,
    keys: Seq<usize>,
    n: nat,
) -> Seq<usize>
    decreases n,
{
    if n == 0 {
        Seq::empty()
    } else {
        let before = sorted_order(lines, directions, keys, (n - 1) as nat);
        before.insert(
            place_of(lines, before, directions, keys, n - 1, n - 1),
            (n - 1) as usize,
        )
    }
}

/// The lines, sorted by the keys.
pub open spec fn sorted(
    lines: Seq<Seq<char>>,
    directions: Map<usize, Seq<char>>,
    keys: Seq<usize>,
) -> Seq<Seq<char>> {
    arranged(lines, sorted_order(lines, directions, keys, lines.len()))
}

/// The place of a line lies at or before the position from which it is
/// sought; the line stands before every line from its place up to that
/// position, and not before the line in front of its place.
pub proof fn lemma_place_of(
    lines: Seq<Seq<char>>,
    order: Seq<usize>,
    directions: Map<usize, Seq<char>>,
    keys: Seq<usize>,
    n: int,
    at: int,
)
    requires
        0 <= at,
    ensures
        0 <= place_of(lines, order, directions, keys, n, at) <= at,
        forall|t: int|
            place_of(lines, order, directions, keys, n, at) <= t < at ==> line_before(
                lines[n],
                lines[#[trigger] order[t] as int],
                directions,
                keys,
            ),
        place_of(lines, order, directions, keys, n, at) > 0 ==> !line_before(
            lines[n],
            lines[order[place_of(lines, order, directions, keys, n, at) - 1] as int],
            directions,
            keys,
        ),
    decreases at,
{
    if at > 0 && line_before(lines[n], lines[order[at - 1] as int], directions, keys) {
        lemma_place_of(lines, order, directions, keys, n, at - 1);
    }
}

/// The sorted order sorts: it arranges the lines so that no line belongs
/// behind its successor, and changes the order of two lines only where the
/// one stands before the other.
pub proof fn lemma_sorted_order_sorts(
    lines: Seq<Seq<char>>,
    directions: Map<usize, Seq<char>>,
    keys: Seq<usize>,
    n: nat,
)
    requires
        n <= lines.len(),
        n <= usize::MAX,
    ensures
        sorts(lines, sorted_order(lines, directions, keys, n), directions, keys, n as int),
    decreases n,
{
    if n > 0 {
        let before = sorted_order(lines, directions, keys, (n - 1) as nat);
        lemma_sorted_order_sorts(lines, directions, keys, (n - 1) as nat);
        lemma_place_of(lines, before, directions, keys, n - 1, n - 1);
        lemma_insert_sorts(
            lines,
            before,
            directions,
            keys,
            n - 1,
            place_of(lines, before, directions, keys, n - 1, n - 1),
        );
    }
}

/// Whether a row holds the fields of a line.
pub open spec fn holds_fields(row: Vec<String>, line: Seq<char>) -> bool {
    row.deep_view() == split(line, ',')
}

/// Sorts the lines by the keys, each in its direction. Lines between which
/// the keys do not decide keep their order.
pub fn order_rows(
    result_table: &mut Vec<String>,
    order_map: HashMap<usize, String>,
    insertion_order: Vec<usize>,
)
    requires
        lines_fit(old(result_table).deep_view(), directions_of(order_map@), insertion_order@),
    ensures
        final(result_table).len() == old(result_table).len(),
        final(result_table).deep_view() == sorted(
            old(result_table).deep_view(),
            directions_of(order_map@),
            insertion_order@,
        ),
{
    let n: usize = result_table.len();
    let ghost lines = result_table.deep_view();
    let ghost directions = directions_of(order_map@);
    let ghost keys = insertion_order@;
    let mut rows: Vec<Vec<String>> = Vec::new();
    let mut i: usize = 0;
    while i < n
        invariant
            i <= n,
            n == result_table.len(),
            lines == result_table.deep_view(),
            rows.len() == i,
            forall|k: int| 0 <= k < i ==> #[trigger] holds_fields(rows@[k], lines[k]),
        decreases n - i,
    {
        rows.push(split_line(result_table[i].as_str(), ','));
        i = i + 1;
    }
    let mut order: Vec<usize> = Vec::new();
    let mut q: usize = 0;
    while q < n
        invariant
            q <= n,
            n == result_table.len(),
            n == rows.len(),
            lines == result_table.deep_view(),
            directions == directions_of(order_map@),
            keys == insertion_order@,
            lines_fit(lines, directions, keys),
            forall|k: int| 0 <= k < n ==> #[trigger] holds_fields(rows@[k], lines[k]),
            sorts(lines, order@, directions, keys, q as int),
            order@ == sorted_order(lines, directions, keys, q as nat),
        decreases n - q,
    {
        let mut at: usize = q;
        assert(holds_fields(rows@[q as int], lines[q as int]));
        assert(keys_fit(directions, keys, split(lines[q as int], ',').len() as int));
        while at > 0
            invariant
                at <= q < n,
                n == rows.len(),
                n == lines.len(),
                directions == directions_of(order_map@),
                keys == insertion_order@,
                lines_fit(lines, directions, keys),
                holds_fields(rows@[q as int], lines[q as int]),
                forall|k: int| 0 <= k < n ==> #[trigger] holds_fields(rows@[k], lines[k]),
                is_arrangement(order@, q as int),
                place_of(lines, order@, directions, keys, q as int, q as int) == place_of(
                    lines,
                    order@,
                    directions,
                    keys,
                    q as int,
                    at as int,
                ),
                forall|t: int|
                    at <= t < q ==> line_before(
                        lines[q as int],
                        lines[#[trigger] order@[t] as int],
                        directions,
                        keys,
                    ),
            ensures
                at <= q,
                at == place_of(lines, order@, directions, keys, q as int, q as int),
                at > 0 ==> !line_before(
                    lines[q as int],
                    lines[order@[at - 1] as int],
                    directions,
                    keys,
                ),
                forall|t: int|
                    at <= t < q ==> line_before(
                        lines[q as int],
                        lines[#[trigger] order@[t] as int],
                        directions,
                        keys,
                    ),
            decreases at,
        {
            let before: usize = order[at - 1];
            proof {
                assert(holds_fields(rows@[before as int], lines[before as int]));
                assert(keys_fit(directions, keys, split(lines[q as int], ',').len() as int));
                assert(keys_fit(
                    directions,
                    keys,
                    split(lines[before as int], ',').len() as int,
                ));
            }
            if !row_precedes(&rows[q], &rows[before], &order_map, &insertion_order) {
                break ;
            }
            at = at - 1;
        }
        proof {
            lemma_insert_sorts(lines, order@, directions, keys, q as int, at as int);
        }
        order.insert(at, q);
        q = q + 1;
    }
    let mut sorted: Vec<String> = Vec::new();
    let mut k: usize = 0;
    while k < n
        invariant
            k <= n,
            n == result_table.len(),
            is_arrangement(order@, n as int),
            sorted.len() == k,
            lines == result_table.deep_view(),
            forall|j: int| 0 <= j < k ==> #[trigger] sorted[j]@ == lines[order@[j] as int],
        decreases n - k,
    {
        sorted.push(result_table[order[k]].clone());
        k = k + 1;
    }
    *result_table = sorted;
    proof {
        assert(result_table.deep_view() =~= arranged(lines, order@));
    }
}

/// Compares two fields, each read as a value: integers by their number,
/// texts in lower case by their characters. An integer and a text are
/// equal in this order.
pub fn compare_columns(val_a: &str, val_b: &str) -> (r: Ordering)
    ensures
        r == Ordering::Less <==> column_before(val_a@, val_b@),
        r == Ordering::Greater <==> column_before(val_b@, val_a@),
{
    proof {
        lemma_column_before_asymmetric(val_a@, val_b@);
    }
    if column_precedes(val_a, val_b) {
        Ordering::Less
    } else if column_precedes(val_b, val_a) {
        Ordering::Greater
    } else {
        Ordering::Equal
    }
}

} // verus!
