//! What an extraction returns, stated over sequences of characters.

use vstd::prelude::*;
use crate::declaration::{at_column, candidates, declares, is_marked, line_fault};
use crate::error::Fault;
use crate::lines::{
    ends_with_newline, has_crlf, lemma_lines_of_cons, lemma_newlines_concat, lemma_newlines_none,
    lines_of, newlines, strip_cr,
};
use crate::scope::{global_name, valid_name};

verus! {

/// The scopes in effect on line `i` of `lines`: those of the nearest
/// declaration above it, or the global scope alone where none stands above.
pub open spec fn active_at(lines: Seq<Seq<char>>, i: int) -> Seq<Seq<char>>
    decreases i,
{
    if i <= 0 {
        seq![global_name()]
    } else if declares(lines[i - 1]) {
        candidates(lines[i - 1])
    } else {
        active_at(lines, i - 1)
    }
}

/// Whether content under the scopes `active` is kept for `target`: the
/// target is among them, or the global scope is, or the target is the
/// global scope.
pub open spec fn includes(active: Seq<Seq<char>>, target: Seq<char>) -> bool {
    active.contains(target) || active.contains(global_name()) || target == global_name()
}

/// Whether line `i` is kept for `target`: it is no declaration and stands
/// under scopes that include the target.
pub open spec fn keeps(lines: Seq<Seq<char>>, i: int, target: Seq<char>) -> bool {
    !declares(lines[i]) && includes(active_at(lines, i), target)
}

/// Line `i` as `target` sees it: itself where it is kept, else blank.
pub open spec fn output_line(lines: Seq<Seq<char>>, i: int, target: Seq<char>) -> Seq<char> {
    if keeps(lines, i, target) {
        lines[i]
    } else {
        Seq::empty()
    }
}

/// Every line as `target` sees it.
pub open spec fn output_lines(lines: Seq<Seq<char>>, target: Seq<char>) -> Seq<Seq<char>> {
    Seq::new(lines.len(), |i: int| output_line(lines, i, target))
}

/// The lines one after the other, a line feed after each.
pub open spec fn join_lines(lines: Seq<Seq<char>>) -> Seq<char>
    decreases lines.len(),
{
    if lines.len() == 0 {
        Seq::empty()
    } else {
        join_lines(lines.drop_last()) + lines.last() + seq!['\n']
    }
}

/// The text made of the lines `out`, which ends with a line feed only if
/// `text` does.
pub open spec fn assemble(text: Seq<char>, out: Seq<Seq<char>>) -> Seq<char> {
    let joined = join_lines(out);
    if !ends_with_newline(text) && ends_with_newline(joined) {
        joined.drop_last()
    } else {
        joined
    }
}

/// The index of the first of `lines` that is refused.
pub open spec fn first_fault(lines: Seq<Seq<char>>) -> Option<int>
    decreases lines.len(),
{
    if lines.len() == 0 {
        None
    } else {
        match first_fault(lines.drop_last()) {
            Some(i) => Some(i),
            None => if line_fault(lines.last()) is Some {
                Some(lines.len() - 1)
            } else {
                None
            },
        }
    }
}

/// Whether `target` is accepted as the scope to extract.
pub open spec fn accepts(target: Seq<char>) -> bool {
    target == global_name() || valid_name(target)
}

/// What extracting `target` from `text` gives.
///
/// A target that is not accepted is refused whatever the text holds. Else
/// the first refused line is reported, with its number and the column of
/// its `@`. Else the text comes back with every line that is not kept
/// blanked.
pub open spec fn extraction(text: Seq<char>, target: Seq<char>) -> Result<Seq<char>, Fault> {
    let lines = lines_of(text);
    if !accepts(target) {
        Err(Fault::InvalidScopeArgument { scope: target })
    } else {
        match first_fault(lines) {
            Some(i) => Err(
                Fault::InvalidScopeName {
                    scope: line_fault(lines[i]).unwrap(),
                    line: (i + 1) as nat,
                    column: at_column(lines[i]),
                },
            ),
            None => Ok(assemble(text, output_lines(lines, target))),
        }
    }
}

/// `first_fault` finds a refused line, and none stands before it.
pub proof fn lemma_first_fault(lines: Seq<Seq<char>>)
    ensures
        match first_fault(lines) {
            Some(i) => {
                &&& 0 <= i < lines.len()
                &&& line_fault(lines[i]) is Some
                &&& forall|j: int| 0 <= j < i ==> line_fault(#[trigger] lines[j]) is None
            },
            None => forall|j: int| 0 <= j < lines.len() ==> line_fault(#[trigger] lines[j]) is None,
        },
    decreases lines.len(),
{
    if lines.len() > 0 {
        let front = lines.drop_last();
        lemma_first_fault(front);
        assert forall|j: int| 0 <= j < front.len() implies front[j] == lines[j] by {}
        match first_fault(front) {
            Some(i) => {
                assert(lines[i] == front[i]);
                assert forall|j: int| 0 <= j < i implies line_fault(#[trigger] lines[j]) is None by {
                    assert(lines[j] == front[j]);
                }
            },
            None => {
                assert forall|j: int| 0 <= j < lines.len() - 1 implies line_fault(
                    #[trigger] lines[j],
                ) is None by {
                    assert(lines[j] == front[j]);
                }
            },
        }
    }
}

/// A refused line with none refused before it is the one `first_fault`
/// finds.
pub proof fn lemma_first_fault_is(lines: Seq<Seq<char>>, i: int)
    requires
        0 <= i < lines.len(),
        line_fault(lines[i]) is Some,
        forall|j: int| 0 <= j < i ==> line_fault(#[trigger] lines[j]) is None,
    ensures
        first_fault(lines) == Some(i),
{
    lemma_first_fault(lines);
}

/// The first `n + 1` lines joined are the first `n` joined, then line `n`
/// and a line feed.
pub proof fn lemma_join_next(lines: Seq<Seq<char>>, n: int)
    requires
        0 <= n < lines.len(),
    ensures
        join_lines(lines.take(n + 1)) == join_lines(lines.take(n)) + lines[n] + seq!['\n'],
{
    assert(lines.take(n + 1).drop_last() == lines.take(n));
}

/// `lines`, each without the carriage return at its end.
pub open spec fn stripped(lines: Seq<Seq<char>>) -> Seq<Seq<char>> {
    Seq::new(lines.len(), |i: int| strip_cr(lines[i]))
}

/// Whether none of `lines` holds a line feed.
pub open spec fn no_newlines(lines: Seq<Seq<char>>) -> bool {
    forall|i: int| 0 <= i < lines.len() ==> !(#[trigger] lines[i]).contains('\n')
}

/// Whether none of `lines` is a declaration.
pub open spec fn plain(lines: Seq<Seq<char>>) -> bool {
    forall|i: int| 0 <= i < lines.len() ==> !declares(#[trigger] lines[i])
}

/// Joining two runs of lines joins what each gives.
pub proof fn lemma_join_concat(a: Seq<Seq<char>>, b: Seq<Seq<char>>)
    ensures
        join_lines(a + b) == join_lines(a) + join_lines(b),
    decreases b.len(),
{
    if b.len() == 0 {
        assert(a + b == a);
        assert(join_lines(a) + join_lines(b) == join_lines(a));
    } else {
        assert((a + b).drop_last() == a + b.drop_last());
        lemma_join_concat(a, b.drop_last());
        assert(join_lines(a + b) == join_lines(a) + join_lines(b));
    }
}

/// The joined lines begin with the first line and its line feed.
pub proof fn lemma_join_first(lines: Seq<Seq<char>>)
    requires
        lines.len() > 0,
    ensures
        join_lines(lines) == lines[0] + seq!['\n'] + join_lines(lines.drop_first()),
{
    let one = seq![lines[0]];
    assert(lines == one + lines.drop_first());
    lemma_join_concat(one, lines.drop_first());
    assert(one.drop_last() == Seq::<Seq<char>>::empty());
    assert(join_lines(one.drop_last()) == Seq::<char>::empty());
    assert(join_lines(one) == lines[0] + seq!['\n']);
}

/// The joined lines end with a line feed, before which stand the last line
/// and, before that, the other lines joined.
pub proof fn lemma_join_last(lines: Seq<Seq<char>>)
    requires
        lines.len() > 0,
    ensures
        ends_with_newline(join_lines(lines)),
        join_lines(lines).drop_last() == join_lines(lines.drop_last()) + lines.last(),
{
}

/// Lines that were joined come back as they were, but for a carriage
/// return at the end of a line; what followed them gives its own lines.
pub proof fn lemma_lines_of_join(lines: Seq<Seq<char>>, tail: Seq<char>)
    requires
        no_newlines(lines),
    ensures
        lines_of(join_lines(lines) + tail) == stripped(lines) + lines_of(tail),
    decreases lines.len(),
{
    if lines.len() == 0 {
        assert(join_lines(lines) + tail == tail);
        assert(stripped(lines) + lines_of(tail) == lines_of(tail));
    } else {
        let rest = lines.drop_first();
        lemma_join_first(lines);
        assert forall|i: int| 0 <= i < rest.len() implies !(#[trigger] rest[i]).contains('\n') by {
            assert(rest[i] == lines[i + 1]);
        }
        lemma_lines_of_join(rest, tail);
        let more = join_lines(rest) + tail;
        assert(join_lines(lines) + tail == lines[0] + seq!['\n'] + more);
        lemma_lines_of_cons(lines[0], more);
        assert(stripped(lines) == seq![strip_cr(lines[0])] + stripped(rest));
    }
}

/// Joined lines hold one line feed for each line.
pub proof fn lemma_newlines_of_join(lines: Seq<Seq<char>>)
    requires
        no_newlines(lines),
    ensures
        newlines(join_lines(lines)) == lines.len(),
    decreases lines.len(),
{
    if lines.len() > 0 {
        let front = lines.drop_last();
        assert forall|i: int| 0 <= i < front.len() implies !(#[trigger] front[i]).contains('\n') by {
            assert(front[i] == lines[i]);
        }
        lemma_newlines_of_join(front);
        let body = join_lines(front) + lines.last();
        lemma_newlines_concat(join_lines(front), lines.last());
        lemma_newlines_none(lines.last());
        assert(join_lines(lines).drop_last() == body);
    }
}

/// Where no carriage return stands before a line feed in the joined text,
/// no line ends with a carriage return.
pub proof fn lemma_no_crlf_in_join(lines: Seq<Seq<char>>, tail: Seq<char>)
    requires
        !has_crlf(join_lines(lines) + tail),
    ensures
        stripped(lines) == lines,
    decreases lines.len(),
{
    if lines.len() > 0 {
        let front = lines.drop_last();
        let last = lines.last();
        let more = last + seq!['\n'] + tail;
        let whole = join_lines(lines) + tail;
        assert(whole == join_lines(front) + more);
        lemma_no_crlf_in_join(front, more);
        if last.len() > 0 && last.last() == '\r' {
            let k = join_lines(front).len() + last.len() - 1;
            assert(whole[k] == '\r');
            assert(whole[k + 1] == '\n');
            assert(has_crlf(whole));
        }
        assert forall|i: int| 0 <= i < lines.len() implies strip_cr(lines[i]) == lines[i] by {
            if i < front.len() {
                assert(stripped(front)[i] == front[i]);
            }
        }
    }
    assert(stripped(lines) == lines);
}

/// Where no line is a declaration, the global scope stays in effect.
pub proof fn lemma_plain_active(lines: Seq<Seq<char>>, i: int)
    requires
        plain(lines),
        0 <= i <= lines.len(),
    ensures
        active_at(lines, i) == seq![global_name()],
    decreases i,
{
    if i > 0 {
        lemma_plain_active(lines, i - 1);
        assert(!declares(lines[i - 1]));
    }
}

/// Where no line is a declaration, none is refused and every target sees
/// them all.
pub proof fn lemma_plain_lines_are_kept(lines: Seq<Seq<char>>, target: Seq<char>)
    requires
        plain(lines),
    ensures
        first_fault(lines) is None,
        output_lines(lines, target) == lines,
{
    lemma_first_fault(lines);
    if let Some(i) = first_fault(lines) {
        assert(!declares(lines[i]));
    }
    assert forall|i: int| 0 <= i < lines.len() implies output_line(lines, i, target)
        == lines[i] by {
        lemma_plain_active(lines, i);
        assert(!declares(lines[i]));
        assert(seq![global_name()][0] == global_name());
    }
    assert(output_lines(lines, target) == lines);
}

/// What a target sees holds no line feed and no declaration.
pub proof fn lemma_output_lines_are_plain(lines: Seq<Seq<char>>, target: Seq<char>)
    requires
        no_newlines(lines),
    ensures
        no_newlines(output_lines(lines, target)),
        plain(output_lines(lines, target)),
{
    let outs = output_lines(lines, target);
    assert forall|i: int| 0 <= i < outs.len() implies !(#[trigger] outs[i]).contains('\n')
        && !declares(outs[i]) by {
        if !keeps(lines, i, target) {
            assert(!is_marked(outs[i]));
        }
    }
}

/// Under a declaration, up to the next one, the scopes in effect are those
/// it names and no others, whatever stood above it.
pub proof fn lemma_active_under_declaration(lines: Seq<Seq<char>>, j: int, i: int)
    requires
        0 <= j < i <= lines.len(),
        declares(lines[j]),
        forall|k: int| j < k < i ==> !declares(#[trigger] lines[k]),
    ensures
        active_at(lines, i) == candidates(lines[j]),
    decreases i - j,
{
    if i - 1 > j {
        lemma_active_under_declaration(lines, j, i - 1);
    }
}

} // verus!
