//! Declaration lines: lines whose first character after any white space is
//! `@` and which name a scope, and the names they declare.

use vstd::prelude::*;
use vstd::slice::slice_subrange;
use crate::scan::{lemma_until, lemma_until_is, scan, until, Mark};
use crate::scope::{valid_chars, valid_name};
use crate::text::{byte_len, lemma_byte_len_push, lemma_byte_len_subrange, utf8_width};

verus! {

/// `s` without the white space at its start.
pub open spec fn trim_start(s: Seq<char>) -> Seq<char> {
    s.skip(until(s, Mark::Ink) as int)
}

/// Whether the first character of `line` after any white space is `@`.
pub open spec fn is_marked(line: Seq<char>) -> bool {
    let trimmed = trim_start(line);
    trimmed.len() > 0 && trimmed[0] == '@'
}

/// What the words of `s` that begin with `@` name, in order and valid or
/// not: each such word without its `@`. Words are separated by white space.
pub open spec fn candidates(s: Seq<char>) -> Seq<Seq<char>>
    decreases s.len(),
{
    let word = trim_start(s);
    if word.len() == 0 {
        Seq::empty()
    } else {
        let n = until(word, Mark::Blank) as int;
        proof {
            lemma_until(s, Mark::Ink);
            lemma_until(word, Mark::Blank);
        }
        let rest = candidates(word.skip(n));
        if word[0] == '@' {
            seq![word.subrange(1, n)] + rest
        } else {
            rest
        }
    }
}

/// The first of `names` that is no valid scope name.
pub open spec fn first_invalid(names: Seq<Seq<char>>) -> Option<Seq<char>>
    decreases names.len(),
{
    if names.len() == 0 {
        None
    } else if !valid_name(names[0]) {
        Some(names[0])
    } else {
        first_invalid(names.drop_first())
    }
}

/// Whether a word of `line` is `@` followed by at least one character.
pub open spec fn names_a_scope(line: Seq<char>) -> bool {
    exists|k: int| 0 <= k < candidates(line).len() && (#[trigger] candidates(line)[k]).len() > 0
}

/// Whether `line` is a declaration: it is marked and names a scope. A
/// marked line whose `@` words all stand alone is content.
pub open spec fn declares(line: Seq<char>) -> bool {
    is_marked(line) && names_a_scope(line)
}

/// The name for which `line` is refused: where it is marked and names a
/// scope, the first of its names that is not valid. Beside a named word a
/// word that is `@` alone names the empty name, which is not valid.
pub open spec fn line_fault(line: Seq<char>) -> Option<Seq<char>> {
    if is_marked(line) && names_a_scope(line) {
        first_invalid(candidates(line))
    } else {
        None
    }
}

/// The column of the first `@` of `line`: one more than the number of
/// bytes that stand before it.
pub open spec fn at_column(line: Seq<char>) -> nat {
    byte_len(line.take(until(line, Mark::At) as int)) + 1
}

/// What each slice holds.
pub open spec fn texts(names: Seq<&[char]>) -> Seq<Seq<char>> {
    names.map_values(|name: &[char]| name@)
}

/// A line as the extraction reads it.
pub enum Reading<'a> {
    /// A line of the configuration itself.
    Content,
    /// A declaration, with the names it declares.
    Names(Vec<&'a [char]>),
    /// A declaration that is refused for a name that is not valid.
    Invalid {
        /// The name.
        name: &'a [char],
        /// The column of the line's first `@`.
        column: usize,
    },
}

/// As long as the names found so far are valid, the first invalid one is
/// among the others.
pub proof fn lemma_first_invalid_skips_valid(found: Seq<Seq<char>>, rest: Seq<Seq<char>>)
    requires
        forall|i: int| 0 <= i < found.len() ==> valid_name(#[trigger] found[i]),
    ensures
        first_invalid(found + rest) == first_invalid(rest),
    decreases found.len(),
{
    if found.len() == 0 {
        assert(found + rest == rest);
    } else {
        assert((found + rest).drop_first() == found.drop_first() + rest);
        assert(valid_name(found[0]));
        assert forall|i: int| 0 <= i < found.drop_first().len() implies valid_name(
            #[trigger] found.drop_first()[i],
        ) by {
            assert(found.drop_first()[i] == found[i + 1]);
        }
        lemma_first_invalid_skips_valid(found.drop_first(), rest);
    }
}

/// Where none of `names` is found invalid, each is valid.
pub proof fn lemma_none_invalid(names: Seq<Seq<char>>)
    requires
        first_invalid(names) is None,
    ensures
        forall|i: int| 0 <= i < names.len() ==> valid_name(#[trigger] names[i]),
    decreases names.len(),
{
    if names.len() > 0 {
        lemma_none_invalid(names.drop_first());
        assert forall|i: int| 0 <= i < names.len() implies valid_name(#[trigger] names[i]) by {
            if i > 0 {
                assert(names[i] == names.drop_first()[i - 1]);
            }
        }
    }
}

/// The number of bytes of the first `n` characters of `s`.
pub fn bytes_before(s: &[char], n: usize) -> (bytes: usize)
    requires
        n <= s.len(),
        byte_len(s@.take(n as int)) <= usize::MAX,
    ensures
        bytes == byte_len(s@.take(n as int)),
{
    let mut bytes: usize = 0;
    let mut i: usize = 0;
    assert(s@.take(0) == Seq::<char>::empty());
    while i < n
        invariant
            i <= n <= s.len(),
            bytes == byte_len(s@.take(i as int)),
            byte_len(s@.take(n as int)) <= usize::MAX,
        decreases n - i,
    {
        proof {
            assert(s@.take(i + 1) == s@.take(i as int).push(s@[i as int]));
            lemma_byte_len_push(s@.take(i as int), s@[i as int]);
            assert(s@.take(n as int).subrange(0, i + 1) == s@.take(i + 1));
            lemma_byte_len_subrange(s@.take(n as int), 0, i + 1);
        }
        bytes += utf8_width(s[i]);
        i += 1;
    }
    bytes
}

/// The column of the `@` that marks `line`, which stands at `start`.
fn mark_column(line: &[char], start: usize) -> (column: usize)
    requires
        start < line.len(),
        start == until(line@, Mark::Ink),
        line@[start as int] == '@',
        byte_len(line@) <= usize::MAX,
    ensures
        column == at_column(line@),
{
    proof {
        lemma_until(line@, Mark::Ink);
        assert forall|j: int| 0 <= j < start implies !Mark::At.matches(#[trigger] line@[j]) by {
            assert(!Mark::Ink.matches(line@[j]));
        }
        lemma_until_is(line@, Mark::At, start as int);
        let upto = line@.take(start as int);
        assert(line@.take(start + 1) == upto.push('@'));
        lemma_byte_len_push(upto, '@');
        assert(line@.take(start + 1) == line@.subrange(0, start + 1));
        lemma_byte_len_subrange(line@, 0, start + 1);
    }
    bytes_before(line, start) + 1
}

/// Reads `line`: whether it declares scopes, and which.
pub fn read_line<'a>(line: &'a [char]) -> (reading: Reading<'a>)
    requires
        byte_len(line@) <= usize::MAX,
    ensures
        match reading {
            Reading::Content => line_fault(line@) is None && !declares(line@),
            Reading::Names(names) => {
                &&& line_fault(line@) is None
                &&& declares(line@)
                &&& texts(names@) == candidates(line@)
            },
            Reading::Invalid { name, column } => {
                &&& line_fault(line@) == Some(name@)
                &&& column == at_column(line@)
            },
        },
{
    let start = scan(line, 0, Mark::Ink);
    proof {
        assert(line@.skip(0) == line@);
        lemma_until(line@, Mark::Ink);
    }
    if start == line.len() || line[start] != '@' {
        return Reading::Content;
    }
    assert(is_marked(line@));
    let mut names: Vec<&'a [char]> = Vec::new();
    let mut bare: Option<&'a [char]> = None;
    let ghost mut seen: Seq<Seq<char>> = Seq::empty();
    let mut pos: usize = 0;
    assert(seen + candidates(line@.skip(0)) == candidates(line@));
    assert(seen == texts(names@));
    while pos < line.len()
        invariant
            pos <= line.len(),
            start < line.len(),
            start == until(line@, Mark::Ink),
            line@[start as int] == '@',
            is_marked(line@),
            byte_len(line@) <= usize::MAX,
            candidates(line@) == seen + candidates(line@.skip(pos as int)),
            bare is None ==> seen == texts(names@),
            bare matches Some(first) ==> {
                &&& first@.len() == 0
                &&& names@.len() == 0
                &&& seen.len() > 0
                &&& forall|i: int| 0 <= i < seen.len() ==> (#[trigger] seen[i]).len() == 0
            },
            forall|i: int| 0 <= i < names@.len() ==> valid_name(#[trigger] texts(names@)[i]),
        decreases line.len() - pos,
    {
        let ghost tail = line@.skip(pos as int);
        let from = scan(line, pos, Mark::Ink);
        let ghost word = trim_start(tail);
        proof {
            lemma_until(tail, Mark::Ink);
            assert(word == line@.skip(from as int));
        }
        if from == line.len() {
            proof {
                assert(candidates(tail) == Seq::<Seq<char>>::empty());
                assert(line@.skip(from as int).len() == 0);
                assert(candidates(line@.skip(from as int)) == Seq::<Seq<char>>::empty());
            }
            pos = from;
        } else {
            let to = scan(line, from, Mark::Blank);
            proof {
                lemma_until(word, Mark::Blank);
                assert(word[0] == line@[from as int]);
                assert(to > from);
                assert(word.skip(to - from) == line@.skip(to as int));
                assert(word.subrange(1, to - from) == line@.subrange(from + 1, to as int));
            }
            if line[from] == '@' {
                let name = slice_subrange(line, from + 1, to);
                let ghost rest = candidates(line@.skip(to as int));
                let ghost others = seq![name@] + rest;
                proof {
                    assert(candidates(tail) == others);
                    assert(others[0] == name@);
                    assert(candidates(line@)[seen.len() as int] == name@);
                }
                if name.len() == 0 {
                    if names.len() > 0 {
                        proof {
                            lemma_first_invalid_skips_valid(texts(names@), others);
                            assert(candidates(line@)[0] == texts(names@)[0]);
                            assert(valid_name(texts(names@)[0]));
                        }
                        let column = mark_column(line, start);
                        return Reading::Invalid { name, column };
                    }
                    if bare.is_none() {
                        bare = Some(name);
                    }
                } else {
                    if let Some(first) = bare {
                        proof {
                            assert(candidates(line@)[0] == seen[0]);
                            assert(seen[0] =~= first@);
                        }
                        let column = mark_column(line, start);
                        return Reading::Invalid { name: first, column };
                    }
                    if !valid_chars(name) {
                        proof {
                            lemma_first_invalid_skips_valid(texts(names@), others);
                        }
                        let column = mark_column(line, start);
                        return Reading::Invalid { name, column };
                    }
                    proof {
                        assert(texts(names@.push(name)) == texts(names@).push(name@));
                    }
                    names.push(name);
                }
                proof {
                    assert(seen + others == seen.push(name@) + rest);
                    seen = seen.push(name@);
                }
            }
            pos = to;
        }
    }
    proof {
        assert(line@.skip(pos as int).len() == 0);
        assert(seen + Seq::<Seq<char>>::empty() == seen);
        assert(candidates(line@) == seen);
        if names@.len() > 0 {
            lemma_first_invalid_skips_valid(texts(names@), Seq::empty());
            assert(texts(names@) + Seq::<Seq<char>>::empty() == texts(names@));
            assert(valid_name(texts(names@)[0]));
            assert(candidates(line@)[0].len() > 0);
        }
    }
    if names.len() > 0 {
        Reading::Names(names)
    } else {
        Reading::Content
    }
}

} // verus!
