//! Characters: conversions between strings and character buffers, the two
//! character classes the scanner needs, and UTF-8 widths.

use vstd::prelude::*;
use vstd::utf8::{encode_scalar, encode_utf8};

verus! {

/// `String::push` appends one character.
pub assume_specification[ String::push ](s: &mut String, c: char)
    ensures
        final(s)@ == old(s)@.push(c),
;

/// `String::pop` removes the last character and returns it, or returns
/// `None` and leaves an empty string as it is.
pub assume_specification[ String::pop ](s: &mut String) -> (last: Option<char>)
    ensures
        old(s)@.len() == 0 ==> last.is_none() && final(s)@ == old(s)@,
        old(s)@.len() > 0 ==> last == Some(old(s)@.last()) && final(s)@ == old(s)@.drop_last(),
;

/// The characters with the Unicode property `White_Space`.
pub open spec fn is_whitespace(c: char) -> bool {
    ||| '\u{9}' <= c <= '\u{d}'
    ||| c == ' '
    ||| c == '\u{85}'
    ||| c == '\u{a0}'
    ||| c == '\u{1680}'
    ||| '\u{2000}' <= c <= '\u{200a}'
    ||| c == '\u{2028}'
    ||| c == '\u{2029}'
    ||| c == '\u{202f}'
    ||| c == '\u{205f}'
    ||| c == '\u{3000}'
}

/// The characters a scope name is made of: ASCII letters, ASCII digits,
/// `_` and `-`.
pub open spec fn is_name_char(c: char) -> bool {
    ||| 'a' <= c <= 'z'
    ||| 'A' <= c <= 'Z'
    ||| '0' <= c <= '9'
    ||| c == '_'
    ||| c == '-'
}

/// Whether `c` is white space.
pub fn whitespace(c: char) -> (r: bool)
    ensures
        r == is_whitespace(c),
{
    (c >= '\u{9}' && c <= '\u{d}') || c == ' ' || c == '\u{85}' || c == '\u{a0}' || c == '\u{1680}'
        || (c >= '\u{2000}' && c <= '\u{200a}') || c == '\u{2028}' || c == '\u{2029}' || c
        == '\u{202f}' || c == '\u{205f}' || c == '\u{3000}'
}

/// Whether `c` may stand in a scope name.
pub fn name_char(c: char) -> (r: bool)
    ensures
        r == is_name_char(c),
{
    (c >= 'a' && c <= 'z') || (c >= 'A' && c <= 'Z') || (c >= '0' && c <= '9') || c == '_' || c
        == '-'
}

/// The characters of `s`, in order. In UTF-8 they are the bytes of `s`,
/// whose number fits in `usize`.
pub fn chars_of(s: &str) -> (chars: Vec<char>)
    ensures
        chars@ == s@,
        byte_len(chars@) <= usize::MAX,
{
    let _ = s.as_bytes().len();
    let mut chars: Vec<char> = Vec::new();
    for c in it: s.chars()
        invariant
            it.seq() == s@,
            chars@ == s@.take(it.index() as int),
    {
        chars.push(c);
    }
    chars
}

/// Appends `chars` to `s`.
pub fn push_chars(s: &mut String, chars: &[char])
    ensures
        final(s)@ == old(s)@ + chars@,
{
    let mut i: usize = 0;
    while i < chars.len()
        invariant
            i <= chars.len(),
            s@ == old(s)@ + chars@.take(i as int),
        decreases chars.len() - i,
    {
        s.push(chars[i]);
        i += 1;
    }
}

/// The string made of `chars`.
pub fn string_of(chars: &[char]) -> (s: String)
    ensures
        s@ == chars@,
{
    let mut s = String::new();
    push_chars(&mut s, chars);
    s
}

/// Whether two character slices hold the same text.
pub fn same_chars(a: &[char], b: &[char]) -> (r: bool)
    ensures
        r == (a@ == b@),
{
    if a.len() != b.len() {
        return false;
    }
    let mut i: usize = 0;
    while i < a.len()
        invariant
            a.len() == b.len(),
            i <= a.len(),
            forall|j: int| 0 <= j < i ==> a@[j] == b@[j],
        decreases a.len() - i,
    {
        if a[i] != b[i] {
            return false;
        }
        i += 1;
    }
    assert(a@ =~= b@);
    true
}

/// The number of bytes of `c` in UTF-8.
pub open spec fn width(c: char) -> nat {
    encode_scalar(c as u32).len()
}

/// The number of bytes of `s` in UTF-8.
pub open spec fn byte_len(s: Seq<char>) -> nat {
    encode_utf8(s).len()
}

/// The number of bytes of `c` in UTF-8.
pub fn utf8_width(c: char) -> (w: usize)
    ensures
        w == width(c),
        1 <= w <= 4,
{
    let v = c as u32;
    if v < 0x80 {
        1
    } else if v < 0x800 {
        2
    } else if v < 0x10000 {
        3
    } else {
        4
    }
}

/// The bytes of a text are those of its parts, one after the other.
pub proof fn lemma_byte_len_concat(a: Seq<char>, b: Seq<char>)
    ensures
        byte_len(a + b) == byte_len(a) + byte_len(b),
    decreases a.len(),
{
    if a.len() == 0 {
        assert(a + b == b);
    } else {
        assert((a + b).drop_first() == a.drop_first() + b);
        lemma_byte_len_concat(a.drop_first(), b);
    }
}

/// One more character adds its width.
pub proof fn lemma_byte_len_push(s: Seq<char>, c: char)
    ensures
        byte_len(s.push(c)) == byte_len(s) + width(c),
{
    let one = seq![c];
    assert(one.drop_first() == Seq::<char>::empty());
    assert(encode_utf8(one) == encode_scalar(c as u32) + encode_utf8(Seq::<char>::empty()));
    assert(s.push(c) == s + one);
    lemma_byte_len_concat(s, one);
}

/// A part of a text has no more bytes than the text.
pub proof fn lemma_byte_len_subrange(s: Seq<char>, from: int, to: int)
    requires
        0 <= from <= to <= s.len(),
    ensures
        byte_len(s.subrange(from, to)) <= byte_len(s),
{
    let head = s.subrange(0, from);
    let mid = s.subrange(from, to);
    let tail = s.subrange(to, s.len() as int);
    assert(s == (head + mid) + tail);
    lemma_byte_len_concat(head + mid, tail);
    lemma_byte_len_concat(head, mid);
}

} // verus!
