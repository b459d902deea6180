//! What can go wrong, and how it is said.

use vstd::prelude::*;
use vstd::string::StringExecFns;

verus! {

/// Why an extraction failed.
#[derive(Debug, Clone, PartialEq, Eq)]
pub enum QuillError {
    /// The text declares a scope whose name is not valid.
    InvalidScopeName {
        /// The name as written, without its `@`.
        scope: String,
        /// The line of the declaration, counted from 1.
        line: usize,
        /// The byte column of the line's first `@`, counted from 1.
        column: usize,
    },
    /// The scope asked for has a name that is not valid.
    InvalidScopeArgument {
        /// The name as given.
        scope: String,
    },
}

/// A failure as contracts speak of it.
pub ghost enum Fault {
    InvalidScopeName { scope: Seq<char>, line: nat, column: nat },
    InvalidScopeArgument { scope: Seq<char> },
}

impl View for QuillError {
    type V = Fault;

    open spec fn view(&self) -> Fault {
        match self {
            QuillError::InvalidScopeName { scope, line, column } => Fault::InvalidScopeName {
                scope: scope@,
                line: *line as nat,
                column: *column as nat,
            },
            QuillError::InvalidScopeArgument { scope } => Fault::InvalidScopeArgument {
                scope: scope@,
            },
        }
    }
}

/// The decimal digit for `d`, which is below ten.
pub open spec fn digit(d: nat) -> char {
    (48 + d) as char
}

/// `n` in decimal, without leading zeros.
pub open spec fn decimal(n: nat) -> Seq<char>
    decreases n,
{
    if n < 10 {
        seq![digit(n)]
    } else {
        decimal(n / 10).push(digit(n % 10))
    }
}

/// What every message ends with.
pub open spec fn allowed_characters() -> Seq<char> {
    ". Scope names may only contain ASCII letters, ASCII digits, underscores, and dashes."@
}

impl Fault {
    /// The message for a reader.
    pub open spec fn message(self) -> Seq<char> {
        match self {
            Fault::InvalidScopeName { scope, line, column } => "Invalid scope name '"@ + scope
                + "' at line "@ + decimal(line) + ", column "@ + decimal(column)
                + allowed_characters(),
            Fault::InvalidScopeArgument { scope } => "Invalid scope name '"@ + scope + "'"@
                + allowed_characters(),
        }
    }
}

/// Appends `n` in decimal to `s`.
pub fn push_decimal(s: &mut String, n: usize)
    ensures
        final(s)@ == old(s)@ + decimal(n as nat),
    decreases n,
{
    if n >= 10 {
        push_decimal(s, n / 10);
    }
    let d: u8 = (n % 10) as u8;
    s.push((48 + d) as char);
}

impl QuillError {
    /// The message for a reader: the name in quotes, where the text is at
    /// fault the line and the column, and the characters a name may hold.
    pub fn message(&self) -> (text: String)
        ensures
            text@ == self@.message(),
    {
        let mut text = String::from_str("Invalid scope name '");
        match self {
            QuillError::InvalidScopeName { scope, line, column } => {
                text.append(scope.as_str());
                text.append("' at line ");
                push_decimal(&mut text, *line);
                text.append(", column ");
                push_decimal(&mut text, *column);
            },
            QuillError::InvalidScopeArgument { scope } => {
                text.append(scope.as_str());
                text.append("'");
            },
        }
        text.append(
            ". Scope names may only contain ASCII letters, ASCII digits, underscores, and dashes.",
        );
        text
    }
}

} // verus!
