//! What holds of every extraction.

use vstd::prelude::*;
use crate::declaration::{at_column, candidates, declares, lemma_none_invalid, line_fault};
use crate::error::Fault;
use crate::lines::{
    ends_with_newline, has_crlf, lemma_line_count, lemma_lines_hold_no_newline,
    lemma_lines_of_single, lines_of, newlines, strip_cr,
};
use crate::model::{
    accepts, active_at, assemble, extraction, first_fault, includes, join_lines,
    lemma_active_under_declaration, lemma_first_fault, lemma_first_fault_is, lemma_join_last,
    lemma_lines_of_join,
    lemma_newlines_of_join, lemma_no_crlf_in_join, lemma_output_lines_are_plain,
    lemma_plain_lines_are_kept, no_newlines, output_line, output_lines, plain, stripped,
};
use crate::scope::global_name;

verus! {

/// An extraction keeps every line feed and adds none: the result has as
/// many as the text.
pub proof fn lemma_line_feeds_are_kept(text: Seq<char>, target: Seq<char>)
    requires
        extraction(text, target) is Ok,
    ensures
        newlines(extraction(text, target)->Ok_0) == newlines(text),
{
    let lines = lines_of(text);
    let outs = output_lines(lines, target);
    lemma_lines_hold_no_newline(text);
    lemma_output_lines_are_plain(lines, target);
    lemma_line_count(text);
    lemma_newlines_of_join(outs);
    if outs.len() > 0 {
        lemma_join_last(outs);
    }
}

/// An extraction keeps the number of lines, and each line its place: line
/// `i` of the result is line `i` as the target sees it, without the
/// carriage return that stood before its line feed.
///
/// This is stated for a text that ends with a line feed, or whose last line
/// stays as it is and is not empty. A last line that ends the text without
/// a line feed and is blanked leaves nothing behind: see
/// [`lemma_blank_last_line_is_lost`].
pub proof fn lemma_lines_keep_their_places(text: Seq<char>, target: Seq<char>)
    requires
        extraction(text, target) is Ok,
        text.len() > 0 && !ends_with_newline(text) ==> output_lines(
            lines_of(text),
            target,
        ).last().len() > 0,
    ensures
        ({
            let lines = lines_of(text);
            let outs = output_lines(lines, target);
            let relines = lines_of(extraction(text, target)->Ok_0);
            &&& relines.len() == lines.len()
            &&& forall|i: int|
                0 <= i < lines.len() ==> #[trigger] relines[i] == if i + 1 < lines.len()
                    || ends_with_newline(text) {
                    strip_cr(outs[i])
                } else {
                    outs[i]
                }
        }),
{
    let lines = lines_of(text);
    let outs = output_lines(lines, target);
    let out = assemble(text, outs);
    lemma_lines_hold_no_newline(text);
    lemma_output_lines_are_plain(lines, target);
    lemma_line_count(text);
    if outs.len() > 0 {
        lemma_join_last(outs);
    }
    if text.len() == 0 || ends_with_newline(text) {
        assert(out == join_lines(outs) + Seq::<char>::empty());
        lemma_lines_of_join(outs, Seq::empty());
        assert(lines_of(out) == stripped(outs));
    } else {
        let front = outs.drop_last();
        let last = outs.last();
        assert(out == join_lines(front) + last);
        lemma_lines_of_join(front, last);
        lemma_lines_of_single(last);
        assert(lines_of(out) == stripped(front) + seq![last]);
    }
}

/// A last line that ends the text without a line feed and is blanked
/// leaves nothing behind: the result is one line shorter than the text.
pub proof fn lemma_blank_last_line_is_lost(text: Seq<char>, target: Seq<char>)
    requires
        extraction(text, target) is Ok,
        text.len() > 0,
        !ends_with_newline(text),
        output_lines(lines_of(text), target).last().len() == 0,
    ensures
        lines_of(extraction(text, target)->Ok_0).len() == lines_of(text).len() - 1,
{
    let lines = lines_of(text);
    let outs = output_lines(lines, target);
    let out = assemble(text, outs);
    lemma_lines_hold_no_newline(text);
    lemma_output_lines_are_plain(lines, target);
    lemma_line_count(text);
    lemma_join_last(outs);
    let front = outs.drop_last();
    assert(out == join_lines(front) + Seq::<char>::empty());
    lemma_lines_of_join(front, Seq::empty());
    assert(lines_of(out) == stripped(front));
}

/// The global scope sees every line but the declarations.
pub proof fn lemma_global_sees_all_content(lines: Seq<Seq<char>>, i: int)
    requires
        0 <= i < lines.len(),
    ensures
        output_line(lines, i, global_name()) == if declares(lines[i]) {
            Seq::<char>::empty()
        } else {
            lines[i]
        },
{
}

/// Whether line `i` is content under the global scope: no declaration
/// stands above it, or the nearest one names `global`.
pub open spec fn under_global(lines: Seq<Seq<char>>, i: int) -> bool {
    !declares(lines[i]) && active_at(lines, i).contains(global_name())
}

/// Where every line of content that is not empty stands under the global
/// scope, extracting the global scope gives just the lines under it, all
/// others blank.
pub proof fn lemma_global_extraction(text: Seq<char>)
    requires
        first_fault(lines_of(text)) is None,
        forall|i: int|
            0 <= i < lines_of(text).len() && !declares(#[trigger] lines_of(text)[i]) && lines_of(
                text,
            )[i].len() > 0 ==> under_global(lines_of(text), i),
    ensures
        extraction(text, global_name()) == Ok::<Seq<char>, Fault>(
            assemble(
                text,
                Seq::new(
                    lines_of(text).len(),
                    |i: int|
                        if under_global(lines_of(text), i) {
                            lines_of(text)[i]
                        } else {
                            Seq::<char>::empty()
                        },
                ),
            ),
        ),
{
    let lines = lines_of(text);
    let under = Seq::new(
        lines.len(),
        |i: int|
            if under_global(lines, i) {
                lines[i]
            } else {
                Seq::<char>::empty()
            },
    );
    assert forall|i: int| 0 <= i < lines.len() implies output_line(lines, i, global_name())
        == under[i] by {
        if !declares(lines[i]) && lines[i].len() > 0 {
            assert(under_global(lines, i));
        }
    }
    assert(output_lines(lines, global_name()) == under);
}

/// A line whose `@` words all stand alone names no scope: it is content,
/// kept or blanked like any other line, and never refused.
pub proof fn lemma_bare_marks_are_content(lines: Seq<Seq<char>>, i: int, target: Seq<char>)
    requires
        0 <= i < lines.len(),
        forall|k: int|
            0 <= k < candidates(lines[i]).len() ==> (#[trigger] candidates(lines[i])[k]).len()
                == 0,
    ensures
        !declares(lines[i]),
        line_fault(lines[i]) is None,
        output_line(lines, i, target) == if includes(active_at(lines, i), target) {
            lines[i]
        } else {
            Seq::<char>::empty()
        },
{
}

/// The scopes in effect are never none, and where no line is refused each
/// of them is `global` or a valid name.
pub proof fn lemma_active_scopes(lines: Seq<Seq<char>>, i: int)
    requires
        0 <= i <= lines.len(),
    ensures
        active_at(lines, i).len() > 0,
        first_fault(lines) is None ==> forall|k: int|
            0 <= k < active_at(lines, i).len() ==> accepts(#[trigger] active_at(lines, i)[k]),
    decreases i,
{
    if i > 0 {
        lemma_active_scopes(lines, i - 1);
        if declares(lines[i - 1]) && first_fault(lines) is None {
            lemma_first_fault(lines);
            assert(line_fault(lines[i - 1]) is None);
            lemma_none_invalid(candidates(lines[i - 1]));
        }
    }
}

/// Content under a declaration is kept for each scope the declaration
/// names, and blank for any other scope but the global one, unless the
/// declaration names `global`.
pub proof fn lemma_declared_together(
    lines: Seq<Seq<char>>,
    j: int,
    i: int,
    name: Seq<char>,
    other: Seq<char>,
)
    requires
        0 <= j < i < lines.len(),
        declares(lines[j]),
        forall|k: int| j < k <= i ==> !declares(#[trigger] lines[k]),
    ensures
        candidates(lines[j]).contains(name) ==> output_line(lines, i, name) == lines[i],
        !candidates(lines[j]).contains(other) && !candidates(lines[j]).contains(global_name())
            && other != global_name() ==> output_line(lines, i, other) == Seq::<char>::empty(),
{
    lemma_active_under_declaration(lines, j, i);
}

/// A target that is neither `global` nor a valid name is refused, whatever
/// the text holds.
pub proof fn lemma_invalid_target_is_refused(text: Seq<char>, target: Seq<char>)
    requires
        !accepts(target),
    ensures
        extraction(text, target) == Err::<Seq<char>, Fault>(
            Fault::InvalidScopeArgument { scope: target },
        ),
{
}

/// The first line that declares an invalid name is reported, with its
/// number counted from 1 and the column of its first `@`, and nothing is
/// returned beside it.
pub proof fn lemma_invalid_declaration_is_reported(text: Seq<char>, target: Seq<char>, i: int)
    requires
        accepts(target),
        0 <= i < lines_of(text).len(),
        line_fault(lines_of(text)[i]) is Some,
        forall|j: int| 0 <= j < i ==> line_fault(#[trigger] lines_of(text)[j]) is None,
    ensures
        extraction(text, target) == Err::<Seq<char>, Fault>(
            Fault::InvalidScopeName {
                scope: line_fault(lines_of(text)[i]).unwrap(),
                line: (i + 1) as nat,
                column: at_column(lines_of(text)[i]),
            },
        ),
{
    lemma_first_fault_is(lines_of(text), i);
}

/// Lines that end with a line feed each, that hold no declaration and no
/// carriage return at their ends, are what any accepted target sees of
/// them.
proof fn lemma_closed_text_is_fixed(kept: Seq<Seq<char>>, target: Seq<char>)
    requires
        accepts(target),
        no_newlines(kept),
        plain(kept),
        !has_crlf(join_lines(kept)),
    ensures
        extraction(join_lines(kept), target) == Ok::<Seq<char>, Fault>(join_lines(kept)),
{
    let out = join_lines(kept);
    assert(out == out + Seq::<char>::empty());
    lemma_lines_of_join(kept, Seq::empty());
    lemma_no_crlf_in_join(kept, Seq::empty());
    assert(lines_of(out) == kept);
    lemma_plain_lines_are_kept(kept, target);
}

/// The same, where a last line ends the text without a line feed.
proof fn lemma_open_text_is_fixed(front: Seq<Seq<char>>, last: Seq<char>, target: Seq<char>)
    requires
        accepts(target),
        no_newlines(front),
        plain(front),
        last.len() > 0,
        !last.contains('\n'),
        !declares(last),
        !has_crlf(join_lines(front) + last),
    ensures
        extraction(join_lines(front) + last, target) == Ok::<Seq<char>, Fault>(
            join_lines(front) + last,
        ),
{
    let out = join_lines(front) + last;
    let kept = front.push(last);
    lemma_lines_of_join(front, last);
    lemma_no_crlf_in_join(front, last);
    lemma_lines_of_single(last);
    assert(lines_of(out) == kept);
    assert(plain(kept)) by {
        assert forall|i: int| 0 <= i < kept.len() implies !declares(#[trigger] kept[i]) by {
            if i < front.len() {
                assert(kept[i] == front[i]);
            }
        }
    }
    lemma_plain_lines_are_kept(kept, target);
    assert(kept.drop_last() == front);
    assert(join_lines(kept).drop_last() == out);
    assert(last.contains(last.last()));
    assert(out.last() == last.last());
}

/// Extracting a scope from what an extraction of it gave changes nothing,
/// where that holds no carriage return just before a line feed.
///
/// A kept line that ends with a carriage return before its line feed
/// loses it when the result is read again, so such a result is left out.
pub proof fn lemma_extraction_is_idempotent(text: Seq<char>, target: Seq<char>)
    requires
        extraction(text, target) is Ok,
        !has_crlf(extraction(text, target)->Ok_0),
    ensures
        extraction(extraction(text, target)->Ok_0, target) == extraction(text, target),
{
    let lines = lines_of(text);
    let outs = output_lines(lines, target);
    let out = assemble(text, outs);
    lemma_lines_hold_no_newline(text);
    lemma_output_lines_are_plain(lines, target);
    lemma_line_count(text);
    if text.len() == 0 || ends_with_newline(text) {
        if outs.len() > 0 {
            lemma_join_last(outs);
        }
        lemma_closed_text_is_fixed(outs, target);
    } else {
        lemma_join_last(outs);
        let front = outs.drop_last();
        let last = outs.last();
        assert(out == join_lines(front) + last);
        assert(no_newlines(front)) by {
            assert forall|i: int| 0 <= i < front.len() implies !(#[trigger] front[i]).contains(
                '\n',
            ) by {
                assert(front[i] == outs[i]);
            }
        }
        assert(plain(front)) by {
            assert forall|i: int| 0 <= i < front.len() implies !declares(#[trigger] front[i]) by {
                assert(front[i] == outs[i]);
            }
        }
        if last.len() > 0 {
            lemma_open_text_is_fixed(front, last, target);
        } else {
            assert(out == join_lines(front));
            lemma_closed_text_is_fixed(front, target);
        }
    }
}

} // verus!
