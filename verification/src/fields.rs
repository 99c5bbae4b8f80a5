//! Lines and their fields: a table line is a list of fields joined by a
//! separator, with no quoting and no escaping.

use crate::text::{chars_of, slice_of};
use vstd::prelude::*;
use vstd::string::*;

verus! {

broadcast use vstd::string::group_string_axioms;

/// The fields of a line: the pieces between the separators. A line without
/// a separator is one field, and so is the empty line.
pub open spec fn split(s: Seq<char>, sep: char) -> Seq<Seq<char>>
    decreases s.len(),
{
    if s.len() == 0 {
        seq![Seq::empty()]
    } else {
        let before = split(s.drop_last(), sep);
        if s.last() == sep {
            before.push(Seq::empty())
        } else {
            before.update(before.len() - 1, before.last().push(s.last()))
        }
    }
}

/// The line that a list of fields makes: the fields in order, with one separator
/// between neighbours.
pub open spec fn join(fields: Seq<Seq<char>>, sep: char) -> Seq<char>
    decreases fields.len(),
{
    if fields.len() == 0 {
        Seq::empty()
    } else if fields.len() == 1 {
        fields[0]
    } else {
        join(fields.drop_last(), sep) + seq![sep] + fields.last()
    }
}

/// Whether no field holds the separator.
pub open spec fn free_of(fields: Seq<Seq<char>>, sep: char) -> bool {
    forall|i: int, j: int|
        0 <= i < fields.len() && 0 <= j < fields[i].len() ==> #[trigger] fields[i][j] != sep
}

/// A line always has at least one field.
pub proof fn lemma_split_nonempty(s: Seq<char>, sep: char)
    ensures
        split(s, sep).len() >= 1,
    decreases s.len(),
{
    if s.len() > 0 {
        lemma_split_nonempty(s.drop_last(), sep);
    }
}

/// No field of a line holds the separator.
pub proof fn lemma_split_free_of(s: Seq<char>, sep: char)
    ensures
        free_of(split(s, sep), sep),
    decreases s.len(),
{
    if s.len() > 0 {
        lemma_split_nonempty(s.drop_last(), sep);
        lemma_split_free_of(s.drop_last(), sep);
        let before = split(s.drop_last(), sep);
        let after = split(s, sep);
        assert forall|i: int, j: int|
            0 <= i < after.len() && 0 <= j < after[i].len() implies #[trigger] after[i][j]
            != sep by {
            if i < before.len() && j < before[i].len() {
                assert(after[i][j] == before[i][j]);
            }
        }
    }
}

/// Joining the fields of a line gives the line back.
pub proof fn lemma_join_split(s: Seq<char>, sep: char)
    ensures
        join(split(s, sep), sep) == s,
    decreases s.len(),
{
    if s.len() == 0 {
        assert(join(split(s, sep), sep) =~= s);
    } else {
        let t = s.drop_last();
        lemma_split_nonempty(t, sep);
        lemma_join_split(t, sep);
        let before = split(t, sep);
        let after = split(s, sep);
        if s.last() == sep {
            assert(after.drop_last() =~= before);
            assert(join(after, sep) =~= s);
        } else {
            lemma_join_grows(before, sep, s.last());
            assert(t.push(s.last()) =~= s);
        }
    }
}

/// A character added to the last field is added to the line.
proof fn lemma_join_grows(fields: Seq<Seq<char>>, sep: char, c: char)
    requires
        fields.len() >= 1,
    ensures
        join(fields.update(fields.len() - 1, fields.last().push(c)), sep) == join(
            fields,
            sep,
        ).push(c),
{
    let grown = fields.update(fields.len() - 1, fields.last().push(c));
    if fields.len() == 1 {
        assert(join(grown, sep) =~= join(fields, sep).push(c));
    } else {
        assert(grown.drop_last() =~= fields.drop_last());
        assert(join(grown, sep) =~= join(fields, sep).push(c));
    }
}

/// A text without the separator is a line of one field.
pub proof fn lemma_split_single(f: Seq<char>, sep: char)
    requires
        forall|j: int| 0 <= j < f.len() ==> f[j] != sep,
    ensures
        split(f, sep) == seq![f],
    decreases f.len(),
{
    if f.len() == 0 {
        assert(f =~= Seq::empty());
    } else {
        lemma_split_single(f.drop_last(), sep);
        assert(f.drop_last().push(f.last()) =~= f);
        assert(split(f, sep) =~= seq![f]);
    }
}

/// A separator and a field added to a line add that field to the line's fields.
pub proof fn lemma_split_extended(line: Seq<char>, f: Seq<char>, sep: char)
    requires
        forall|j: int| 0 <= j < f.len() ==> f[j] != sep,
    ensures
        split(line + seq![sep] + f, sep) == split(line, sep).push(f),
    decreases f.len(),
{
    let whole = line + seq![sep] + f;
    if f.len() == 0 {
        assert(whole.drop_last() =~= line);
        assert(f =~= Seq::empty());
    } else {
        let g = f.drop_last();
        lemma_split_extended(line, g, sep);
        assert(whole.drop_last() =~= line + seq![sep] + g);
        assert(whole.last() == f.last());
        assert(split(line, sep).push(g).update(split(line, sep).len() as int, g.push(f.last()))
            =~= split(line, sep).push(f)) by {
            assert(g.push(f.last()) =~= f);
        }
    }
}

/// Splitting the line that fields were joined into gives the fields back,
/// where there is at least one field and none holds the separator.
pub proof fn lemma_split_join(fields: Seq<Seq<char>>, sep: char)
    requires
        fields.len() >= 1,
        free_of(fields, sep),
    ensures
        split(join(fields, sep), sep) == fields,
    decreases fields.len(),
{
    if fields.len() == 1 {
        assert forall|j: int| 0 <= j < fields[0].len() implies fields[0][j] != sep by {
            assert(fields[0][j] != sep);
        }
        lemma_split_single(fields[0], sep);
        assert(fields =~= seq![fields[0]]);
    } else {
        let init = fields.drop_last();
        assert(free_of(init, sep)) by {
            assert forall|i: int, j: int|
                0 <= i < init.len() && 0 <= j < init[i].len() implies #[trigger] init[i][j]
                != sep by {
                assert(fields[i][j] != sep);
            }
        }
        lemma_split_join(init, sep);
        assert forall|j: int| 0 <= j < fields.last().len() implies fields.last()[j] != sep by {
            assert(fields[fields.len() - 1][j] != sep);
        }
        lemma_split_extended(join(init, sep), fields.last(), sep);
        assert(init.push(fields.last()) =~= fields);
    }
}

/// Splits a line into its fields.
pub fn split_line(line: &str, sep: char) -> (fields: Vec<String>)
    ensures
        fields.deep_view() == split(line@, sep),
        fields.len() >= 1,
{
    let chars = chars_of(line);
    let n: usize = chars.len();
    let mut fields: Vec<String> = Vec::new();
    let mut start: usize = 0;
    let mut i: usize = 0;
    assert(line@.take(0) =~= Seq::<char>::empty());
    assert(fields.deep_view().push(line@.subrange(0, 0)) =~= seq![Seq::<char>::empty()]);
    while i < n
        invariant
            start <= i <= n,
            n == line@.len(),
            chars@ == line@,
            split(line@.take(i as int), sep) == fields.deep_view().push(
                line@.subrange(start as int, i as int),
            ),
        decreases n - i,
    {
        let ghost done = fields.deep_view();
        let ghost prefix = line@.take(i as int);
        proof {
            assert(line@.take(i + 1).drop_last() =~= prefix);
            assert(line@.take(i + 1).last() == line@[i as int]);
        }
        if chars[i] == sep {
            let field = slice_of(line, start, i);
            fields.push(field);
            start = i + 1;
            proof {
                assert(fields.deep_view() =~= done.push(field@));
                assert(line@.subrange(start as int, i + 1) =~= Seq::<char>::empty());
            }
        } else {
            proof {
                assert(line@.subrange(start as int, i as int).push(line@[i as int])
                    =~= line@.subrange(start as int, i + 1));
                assert(done.push(line@.subrange(start as int, i as int)).update(
                    done.len() as int,
                    line@.subrange(start as int, i + 1),
                ) =~= done.push(line@.subrange(start as int, i + 1)));
            }
        }
        i = i + 1;
    }
    let ghost done = fields.deep_view();
    let last = slice_of(line, start, n);
    fields.push(last);
    proof {
        assert(line@.take(n as int) =~= line@);
        assert(fields.deep_view() =~= done.push(last@));
    }
    fields
}

/// Joins fields into a line, with a comma between neighbours.
pub fn join_line(fields: &Vec<String>) -> (line: String)
    ensures
        line@ == join(fields.deep_view(), ','),
{
    let sep: &str = ",";
    proof {
        reveal_strlit(",");
    }
    let mut line = String::new();
    let n: usize = fields.len();
    let mut i: usize = 0;
    assert(fields.deep_view().take(0) =~= Seq::empty());
    while i < n
        invariant
            i <= n,
            n == fields.len(),
            sep@.len() == 1,
            sep@[0] == ',',
            line@ == join(fields.deep_view().take(i as int), ','),
        decreases n - i,
    {
        if i > 0 {
            line.append(sep);
        }
        line.append(fields[i].as_str());
        proof {
            let upto = fields.deep_view().take(i + 1);
            assert(upto.drop_last() =~= fields.deep_view().take(i as int));
            assert(upto.last() == fields[i as int]@);
            assert(sep@ =~= seq![sep@[0]]);
            if i == 0 {
                assert(line@ =~= fields[0]@);
            }
        }
        i = i + 1;
    }
    assert(fields.deep_view().take(n as int) =~= fields.deep_view());
    line
}

} // verus!
