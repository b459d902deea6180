//! The extraction itself.

use vstd::prelude::*;
use crate::declaration::{line_fault, read_line, texts, Reading};
use crate::error::{Fault, QuillError};
use crate::lines::{lines_of, next_line};
use crate::model::{
    accepts, active_at, extraction, includes, join_lines, lemma_first_fault,
    lemma_first_fault_is, lemma_join_next, output_line, output_lines,
};
use crate::scope::{global_name, valid_chars, Scope};
use crate::text::{
    byte_len, chars_of, lemma_byte_len_subrange, push_chars, same_chars, string_of,
};

verus! {

/// A result as contracts speak of it.
pub open spec fn outcome(result: Result<String, QuillError>) -> Result<Seq<char>, Fault> {
    match result {
        Ok(text) => Ok(text@),
        Err(error) => Err(error@),
    }
}

/// Whether one of `names` is `name`.
pub fn has_name(names: &Vec<&[char]>, name: &[char]) -> (found: bool)
    ensures
        found == texts(names@).contains(name@),
{
    let mut i: usize = 0;
    while i < names.len()
        invariant
            i <= names.len(),
            forall|j: int| 0 <= j < i ==> texts(names@)[j] != name@,
        decreases names.len() - i,
    {
        if same_chars(names[i], name) {
            assert(texts(names@)[i as int] == name@);
            return true;
        }
        i += 1;
    }
    false
}

/// Extracts `scope` from `toml_str`.
///
/// The result has the lines of the text in their places. A line stays as
/// it is where it stands before any declaration, under a declaration that
/// names the scope or `global`, or anywhere if the scope is the global one.
/// Declarations and all other lines are blank. Every line ends with a line
/// feed, but for a last line that ends the text without one.
///
/// A scope whose name is not valid is refused before the text is read; a
/// declaration of a name that is not valid is refused with its place.
pub fn extract_scope(toml_str: &str, scope: Scope<'_>) -> (result: Result<String, QuillError>)
    ensures
        outcome(result) == extraction(toml_str@, scope.name()),
{
    let target_scope: &str = scope.into();
    let target = chars_of(target_scope);
    let global = chars_of("global");
    if !same_chars(target.as_slice(), global.as_slice()) && !valid_chars(target.as_slice()) {
        return Err(QuillError::InvalidScopeArgument { scope: string_of(target.as_slice()) });
    }
    let text = chars_of(toml_str);
    let ghost lines = lines_of(text@);
    let ghost wanted = target@;
    let mut result = String::new();
    let mut include_content = true;
    let mut line_number: usize = 0;
    let mut pos: usize = 0;
    proof {
        assert(text@.skip(0) == text@);
        assert(lines.skip(0) == lines);
        assert(output_lines(lines, wanted).take(0) == Seq::<Seq<char>>::empty());
        assert(seq![global_name()][0] == global_name());
    }
    while pos < text.len()
        invariant
            pos <= text.len(),
            line_number <= pos,
            line_number <= lines.len(),
            lines == lines_of(text@),
            wanted == target@,
            wanted == scope.name(),
            accepts(wanted),
            text@ == toml_str@,
            global@ == global_name(),
            byte_len(text@) <= usize::MAX,
            lines.skip(line_number as int) == lines_of(text@.skip(pos as int)),
            forall|j: int| 0 <= j < line_number ==> line_fault(#[trigger] lines[j]) is None,
            include_content == includes(active_at(lines, line_number as int), wanted),
            result@ == join_lines(output_lines(lines, wanted).take(line_number as int)),
        decreases text.len() - pos,
    {
        let (line, next) = next_line(text.as_slice(), pos);
        let ghost here = line_number as int;
        proof {
            let rest = lines.skip(here);
            assert(rest[0] == line@);
            assert(rest.len() > 0);
            assert(lines[here] == line@);
            assert(lines.skip(here + 1) == rest.skip(1));
            assert((seq![line@] + lines_of(text@.skip(next as int))).skip(1) == lines_of(
                text@.skip(next as int),
            ));
            lemma_byte_len_subrange(text@, pos as int, pos + line@.len());
            lemma_join_next(output_lines(lines, wanted), here);
        }
        line_number += 1;
        match read_line(line) {
            Reading::Invalid { name, column } => {
                proof {
                    lemma_first_fault_is(lines, here);
                }
                return Err(
                    QuillError::InvalidScopeName {
                        scope: string_of(name),
                        line: line_number,
                        column,
                    },
                );
            },
            Reading::Names(names) => {
                include_content = has_name(&names, target.as_slice()) || has_name(
                    &names,
                    global.as_slice(),
                ) || same_chars(target.as_slice(), global.as_slice());
                result.push('\n');
                proof {
                    assert(output_line(lines, here, wanted) == Seq::<char>::empty());
                    assert(result@ == join_lines(output_lines(lines, wanted).take(here + 1)));
                }
            },
            Reading::Content => {
                if include_content {
                    push_chars(&mut result, line);
                }
                result.push('\n');
                proof {
                    assert(result@ == join_lines(output_lines(lines, wanted).take(here + 1)));
                }
            },
        }
        pos = next;
    }
    proof {
        assert(text@.skip(pos as int).len() == 0);
        assert(lines.skip(line_number as int).len() == 0);
        assert(line_number == lines.len());
        assert(output_lines(lines, wanted).take(line_number as int) == output_lines(
            lines,
            wanted,
        ));
        lemma_first_fault(lines);
    }
    if line_number > 0 && text[text.len() - 1] != '\n' {
        result.pop();
    }
    Ok(result)
}

} // verus!
