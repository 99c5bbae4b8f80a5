//! Statements and their tokens: words split at whitespace and folded to
//! lower case, and the punctuation that is stripped from names and literals.

use crate::text::{char_is_space, chars_of, is_space, lowercase, slice_of, to_lower};
use vstd::prelude::*;
use vstd::string::*;

verus! {

broadcast use vstd::string::group_string_axioms;

/// How many of the leading characters of `s` are not whitespace.
pub open spec fn word_len(s: Seq<char>) -> nat
    decreases s.len(),
{
    if s.len() == 0 || is_space(s[0]) {
        0
    } else {
        1 + word_len(s.skip(1))
    }
}

/// The words of a text: its longest runs of characters that are not
/// whitespace, in order.
pub open spec fn words(s: Seq<char>) -> Seq<Seq<char>>
    decreases s.len(),
    via words_decreases
{
    if s.len() == 0 {
        Seq::empty()
    } else if is_space(s[0]) {
        words(s.skip(1))
    } else {
        seq![s.take(word_len(s) as int)] + words(s.skip(word_len(s) as int))
    }
}

#[via_fn]
proof fn words_decreases(s: Seq<char>) {
    lemma_word_len_bound(s);
}

/// The tokens of a statement: its words, each in lower case.
pub open spec fn tokens_of(s: Seq<char>) -> Seq<Seq<char>> {
    Seq::new(words(s).len(), |i: int| lowercase(words(s)[i]))
}

/// A word is no longer than the text that it starts.
pub proof fn lemma_word_len_bound(s: Seq<char>)
    ensures
        word_len(s) <= s.len(),
    decreases s.len(),
{
    if s.len() > 0 && !is_space(s[0]) {
        lemma_word_len_bound(s.skip(1));
    }
}

/// Splits a statement at whitespace and folds each word to lower case.
pub fn tokenize(statement: &str) -> (tokens: Vec<String>)
    ensures
        tokens.deep_view() == tokens_of(statement@),
{
    let chars = chars_of(statement);
    let n: usize = chars.len();
    let mut tokens: Vec<String> = Vec::new();
    let ghost mut found: Seq<Seq<char>> = Seq::empty();
    let mut i: usize = 0;
    assert(statement@.skip(0) =~= statement@);
    while i < n
        invariant
            i <= n,
            n == statement@.len(),
            chars@ == statement@,
            words(statement@) == found + words(statement@.skip(i as int)),
            tokens.len() == found.len(),
            forall|k: int| 0 <= k < found.len() ==> tokens[k]@ == lowercase(found[k]),
        decreases n - i,
    {
        let ghost rest = statement@.skip(i as int);
        if char_is_space(chars[i]) {
            proof {
                assert(rest.skip(1) =~= statement@.skip(i + 1));
            }
            i = i + 1;
        } else {
            let mut j: usize = i + 1;
            proof {
                assert(rest.skip(1) =~= statement@.skip(i + 1));
            }
            while j < n && !char_is_space(chars[j])
                invariant
                    i < j <= n,
                    n == statement@.len(),
                    chars@ == statement@,
                    rest == statement@.skip(i as int),
                    word_len(rest) == (j - i) + word_len(statement@.skip(j as int)),
                decreases n - j,
            {
                proof {
                    assert(statement@.skip(j as int).skip(1) =~= statement@.skip(j + 1));
                }
                j = j + 1;
            }
            proof {
                assert(word_len(statement@.skip(j as int)) == 0);
                assert(rest.take((j - i) as int) =~= statement@.subrange(i as int, j as int));
                assert(rest.skip((j - i) as int) =~= statement@.skip(j as int));
            }
            let word = to_lower(statement.substring_char(i, j));
            tokens.push(word);
            proof {
                let w = statement@.subrange(i as int, j as int);
                assert(found + (seq![w] + words(statement@.skip(j as int))) =~= found.push(w)
                    + words(statement@.skip(j as int)));
                found = found.push(w);
            }
            i = j;
        }
    }
    proof {
        assert(statement@.skip(n as int) =~= Seq::<char>::empty());
        assert(words(statement@) =~= found);
        assert(tokens.deep_view() =~= tokens_of(statement@));
    }
    tokens
}

/// The two classes of characters that are stripped from the ends of a token.
#[derive(Clone, Copy, PartialEq, Eq, Debug)]
pub enum Trim {
    /// Parentheses, commas, apostrophes and semicolons.
    Punctuation,
    /// Unicode whitespace.
    Whitespace,
}

/// Whether a character is one of those that surround names and literals
/// in a statement.
pub open spec fn is_punctuation(c: char) -> bool {
    c == '(' || c == ')' || c == ',' || c == '\'' || c == ';'
}

/// Whether a character belongs to a class.
pub open spec fn trims(kind: Trim, c: char) -> bool {
    match kind {
        Trim::Punctuation => is_punctuation(c),
        Trim::Whitespace => is_space(c),
    }
}

/// `s` without its leading characters of the class.
pub open spec fn strip_front(s: Seq<char>, kind: Trim) -> Seq<char>
    decreases s.len(),
{
    if s.len() > 0 && trims(kind, s[0]) {
        strip_front(s.skip(1), kind)
    } else {
        s
    }
}

/// `s` without its trailing characters of the class.
pub open spec fn strip_back(s: Seq<char>, kind: Trim) -> Seq<char>
    decreases s.len(),
{
    if s.len() > 0 && trims(kind, s.last()) {
        strip_back(s.drop_last(), kind)
    } else {
        s
    }
}

/// `s` without the characters of the class at either end.
pub open spec fn strip(s: Seq<char>, kind: Trim) -> Seq<char> {
    strip_back(strip_front(s, kind), kind)
}

/// A token without the punctuation, and then without the whitespace, that
/// surrounds it.
pub open spec fn cleaned(s: Seq<char>) -> Seq<char> {
    strip(strip(s, Trim::Punctuation), Trim::Whitespace)
}

fn in_class(kind: Trim, c: char) -> (r: bool)
    ensures
        r == trims(kind, c),
{
    match kind {
        Trim::Punctuation => c == '(' || c == ')' || c == ',' || c == '\'' || c == ';',
        Trim::Whitespace => char_is_space(c),
    }
}

/// Strips the characters of a class from both ends of a text.
pub fn strip_text(s: &str, kind: Trim) -> (r: String)
    ensures
        r@ == strip(s@, kind),
{
    let chars = chars_of(s);
    let n: usize = chars.len();
    let mut i: usize = 0;
    assert(s@.skip(0) =~= s@);
    while i < n && in_class(kind, chars[i])
        invariant
            i <= n,
            n == s@.len(),
            chars@ == s@,
            strip_front(s@, kind) == strip_front(s@.skip(i as int), kind),
        decreases n - i,
    {
        proof {
            assert(s@.skip(i as int).skip(1) =~= s@.skip(i + 1));
        }
        i = i + 1;
    }
    assert(strip_front(s@, kind) =~= s@.subrange(i as int, n as int));
    let mut j: usize = n;
    while j > i && in_class(kind, chars[j - 1])
        invariant
            i <= j <= n,
            n == s@.len(),
            chars@ == s@,
            strip(s@, kind) == strip_back(s@.subrange(i as int, j as int), kind),
        decreases j,
    {
        proof {
            assert(s@.subrange(i as int, j as int).drop_last() =~= s@.subrange(
                i as int,
                j - 1,
            ));
        }
        j = j - 1;
    }
    slice_of(s, i, j)
}

/// Strips punctuation, then whitespace, from both ends of a token.
pub fn clean_text(s: &str) -> (r: String)
    ensures
        r@ == cleaned(s@),
{
    let bare = strip_text(s, Trim::Punctuation);
    strip_text(bare.as_str(), Trim::Whitespace)
}

} // verus!
