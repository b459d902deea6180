//! The lines of a text.

use vstd::prelude::*;
use vstd::slice::slice_subrange;
use crate::scan::{lemma_until, lemma_until_is, scan, until, Mark};

verus! {

/// `line` without the carriage return at its end, if it has one.
pub open spec fn strip_cr(line: Seq<char>) -> Seq<char> {
    if line.len() > 0 && line.last() == '\r' {
        line.drop_last()
    } else {
        line
    }
}

/// The lines of `text`. A line ends with a line feed, which is no part of
/// it, nor is a carriage return just before that line feed. What follows
/// the last line feed is a line too, unless nothing follows.
pub open spec fn lines_of(text: Seq<char>) -> Seq<Seq<char>>
    decreases text.len(),
{
    if text.len() == 0 {
        Seq::empty()
    } else {
        let n = until(text, Mark::Newline) as int;
        if n < text.len() {
            seq![strip_cr(text.take(n))] + lines_of(text.skip(n + 1))
        } else {
            seq![text]
        }
    }
}

/// The number of line feeds in `s`.
pub open spec fn newlines(s: Seq<char>) -> nat
    decreases s.len(),
{
    if s.len() == 0 {
        0
    } else {
        newlines(s.drop_last()) + if s.last() == '\n' {
            1nat
        } else {
            0nat
        }
    }
}

/// Whether a carriage return stands just before a line feed somewhere in
/// `s`.
pub open spec fn has_crlf(s: Seq<char>) -> bool {
    exists|i: int| 0 <= i && i + 1 < s.len() && #[trigger] s[i] == '\r' && s[i + 1] == '\n'
}

/// Whether the last character of `text` is a line feed.
pub open spec fn ends_with_newline(text: Seq<char>) -> bool {
    text.len() > 0 && text.last() == '\n'
}

/// The line of `text` that starts at `from`, and where the line after it
/// starts.
pub fn next_line<'a>(text: &'a [char], from: usize) -> (r: (&'a [char], usize))
    requires
        from < text.len(),
    ensures
        from < r.1 <= text.len(),
        r.0@ == text@.subrange(from as int, from + r.0@.len()),
        lines_of(text@.skip(from as int)) == seq![r.0@] + lines_of(text@.skip(r.1 as int)),
{
    let end = scan(text, from, Mark::Newline);
    let ghost rest = text@.skip(from as int);
    proof {
        lemma_until(rest, Mark::Newline);
    }
    if end < text.len() {
        let stop = if end > from && text[end - 1] == '\r' {
            end - 1
        } else {
            end
        };
        let line = slice_subrange(text, from, stop);
        proof {
            let n = end - from;
            assert(rest.take(n) == text@.subrange(from as int, end as int));
            assert(rest.skip(n + 1) == text@.skip(end + 1));
            assert(line@ == strip_cr(rest.take(n)));
        }
        (line, end + 1)
    } else {
        let line = slice_subrange(text, from, end);
        proof {
            assert(line@ == rest);
            assert(text@.skip(end as int).len() == 0);
            assert(seq![rest] + Seq::<Seq<char>>::empty() == seq![rest]);
        }
        (line, end)
    }
}

/// No line holds a line feed.
pub proof fn lemma_lines_hold_no_newline(text: Seq<char>)
    ensures
        forall|i: int| 0 <= i < lines_of(text).len() ==> !(#[trigger] lines_of(text)[i]).contains('\n'),
    decreases text.len(),
{
    if text.len() > 0 {
        lemma_until(text, Mark::Newline);
        let n = until(text, Mark::Newline) as int;
        if n < text.len() {
            let first = strip_cr(text.take(n));
            let rest = lines_of(text.skip(n + 1));
            lemma_lines_hold_no_newline(text.skip(n + 1));
            assert forall|j: int| 0 <= j < first.len() implies first[j] != '\n' by {
                assert(first[j] == text[j]);
                assert(!Mark::Newline.matches(text[j]));
            }
            assert forall|i: int| 0 <= i < lines_of(text).len() implies !(#[trigger] lines_of(
                text,
            )[i]).contains('\n') by {
                if i > 0 {
                    assert(lines_of(text)[i] == rest[i - 1]);
                }
            }
        } else {
            assert forall|j: int| 0 <= j < text.len() implies text[j] != '\n' by {
                assert(!Mark::Newline.matches(text[j]));
            }
        }
    }
}

/// A line, its line feed and more text: the line comes first, without the
/// carriage return at its end, and the lines of the rest follow.
pub proof fn lemma_lines_of_cons(line: Seq<char>, rest: Seq<char>)
    requires
        !line.contains('\n'),
    ensures
        lines_of(line + seq!['\n'] + rest) == seq![strip_cr(line)] + lines_of(rest),
{
    let text = line + seq!['\n'] + rest;
    let n = line.len() as int;
    assert forall|j: int| 0 <= j < n implies !Mark::Newline.matches(#[trigger] text[j]) by {
        assert(text[j] == line[j]);
        assert(line.contains(line[j]));
    }
    assert(text[n] == '\n');
    lemma_until_is(text, Mark::Newline, n);
    assert(text.take(n) == line);
    assert(text.skip(n + 1) == rest);
}

/// Text without a line feed is one line, if it is not empty.
pub proof fn lemma_lines_of_single(line: Seq<char>)
    requires
        line.len() > 0,
        !line.contains('\n'),
    ensures
        lines_of(line) == seq![line],
{
    assert forall|j: int| 0 <= j < line.len() implies !Mark::Newline.matches(#[trigger] line[j]) by {
        assert(line.contains(line[j]));
    }
    lemma_until_is(line, Mark::Newline, line.len() as int);
}

/// The line feeds of a text are those of its parts.
pub proof fn lemma_newlines_concat(a: Seq<char>, b: Seq<char>)
    ensures
        newlines(a + b) == newlines(a) + newlines(b),
    decreases b.len(),
{
    if b.len() == 0 {
        assert(a + b == a);
    } else {
        assert((a + b).drop_last() == a + b.drop_last());
        lemma_newlines_concat(a, b.drop_last());
    }
}

/// Text that holds no line feed counts none.
pub proof fn lemma_newlines_none(s: Seq<char>)
    requires
        !s.contains('\n'),
    ensures
        newlines(s) == 0,
    decreases s.len(),
{
    if s.len() > 0 {
        assert(s.contains(s.last()));
        assert forall|j: int| 0 <= j < s.drop_last().len() implies s.drop_last()[j] != '\n' by {
            assert(s.contains(s[j]));
        }
        lemma_newlines_none(s.drop_last());
    }
}

/// A text has one line for each line feed, and one more if it ends
/// without one.
pub proof fn lemma_line_count(text: Seq<char>)
    ensures
        lines_of(text).len() == newlines(text) + if text.len() > 0 && !ends_with_newline(text) {
            1nat
        } else {
            0nat
        },
    decreases text.len(),
{
    if text.len() > 0 {
        lemma_until(text, Mark::Newline);
        let n = until(text, Mark::Newline) as int;
        if n < text.len() {
            let head = text.take(n);
            let rest = text.skip(n + 1);
            lemma_line_count(rest);
            let upto = text.take(n + 1);
            assert(text == upto + rest);
            assert(upto.drop_last() == head);
            assert forall|j: int| 0 <= j < head.len() implies head[j] != '\n' by {
                assert(!Mark::Newline.matches(text[j]));
            }
            lemma_newlines_none(head);
            lemma_newlines_concat(upto, rest);
            if rest.len() > 0 {
                assert(text.last() == rest.last());
            }
        } else {
            assert forall|j: int| 0 <= j < text.len() implies text[j] != '\n' by {
                assert(!Mark::Newline.matches(text[j]));
            }
            lemma_newlines_none(text);
        }
    }
}

} // verus!
