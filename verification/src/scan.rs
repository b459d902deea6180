//! Scanning forward in a text to the first character of some kind.

use vstd::prelude::*;
use crate::text::{is_whitespace, whitespace};

verus! {

/// A kind of character that a scan stops at.
#[derive(Clone, Copy, Debug)]
pub enum Mark {
    /// The line feed.
    Newline,
    /// The character `@`.
    At,
    /// Any white space.
    Blank,
    /// Anything but white space.
    Ink,
}

impl Mark {
    /// Whether `c` is of this kind.
    pub open spec fn matches(self, c: char) -> bool {
        match self {
            Mark::Newline => c == '\n',
            Mark::At => c == '@',
            Mark::Blank => is_whitespace(c),
            Mark::Ink => !is_whitespace(c),
        }
    }

    /// Whether `c` is of this kind.
    pub fn test(self, c: char) -> (r: bool)
        ensures
            r == self.matches(c),
    {
        match self {
            Mark::Newline => c == '\n',
            Mark::At => c == '@',
            Mark::Blank => whitespace(c),
            Mark::Ink => !whitespace(c),
        }
    }
}

/// The number of characters of `s` that stand before its first character of
/// kind `mark`: all of them, if it has none.
pub open spec fn until(s: Seq<char>, mark: Mark) -> nat
    decreases s.len(),
{
    if s.len() == 0 || mark.matches(s[0]) {
        0
    } else {
        1 + until(s.drop_first(), mark)
    }
}

/// `until` stays inside the text, passes no character of the kind, and
/// stops on one where it stops before the end.
pub proof fn lemma_until(s: Seq<char>, mark: Mark)
    ensures
        until(s, mark) <= s.len(),
        forall|j: int| 0 <= j < until(s, mark) ==> !mark.matches(#[trigger] s[j]),
        until(s, mark) < s.len() ==> mark.matches(s[until(s, mark) as int]),
    decreases s.len(),
{
    if s.len() == 0 || mark.matches(s[0]) {
    } else {
        let rest = s.drop_first();
        lemma_until(rest, mark);
        assert forall|j: int| 0 <= j < until(s, mark) implies !mark.matches(#[trigger] s[j]) by {
            if j > 0 {
                assert(s[j] == rest[j - 1]);
            }
        }
        assert(until(s, mark) < s.len() ==> s[until(s, mark) as int] == rest[until(rest, mark) as int]);
    }
}

/// The one position that passes no character of the kind and stands on one,
/// or at the end, is where `until` stops.
pub proof fn lemma_until_is(s: Seq<char>, mark: Mark, n: int)
    requires
        0 <= n <= s.len(),
        forall|j: int| 0 <= j < n ==> !mark.matches(#[trigger] s[j]),
        n == s.len() || mark.matches(s[n]),
    ensures
        until(s, mark) == n,
    decreases s.len(),
{
    if n > 0 {
        let rest = s.drop_first();
        assert forall|j: int| 0 <= j < n - 1 implies !mark.matches(#[trigger] rest[j]) by {
            assert(rest[j] == s[j + 1]);
        }
        assert(n - 1 < rest.len() ==> rest[n - 1] == s[n]);
        lemma_until_is(rest, mark, n - 1);
    }
}

/// The position of the first character of kind `mark` at or after `from`,
/// or the length of `s` if there is none.
pub fn scan(s: &[char], from: usize, mark: Mark) -> (to: usize)
    requires
        from <= s.len(),
    ensures
        to == from + until(s@.skip(from as int), mark),
        from <= to <= s.len(),
{
    let mut to: usize = from;
    while to < s.len() && !mark.test(s[to])
        invariant
            from <= to <= s.len(),
            forall|j: int| from <= j < to ==> !mark.matches(#[trigger] s@[j]),
        decreases s.len() - to,
    {
        to += 1;
    }
    proof {
        let rest = s@.skip(from as int);
        assert forall|j: int| 0 <= j < to - from implies !mark.matches(#[trigger] rest[j]) by {
            assert(rest[j] == s@[from + j]);
        }
        lemma_until_is(rest, mark, to - from);
    }
    to
}

} // verus!
