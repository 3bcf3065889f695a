//! The classes of characters that the grammar of the shell speaks of.
use vstd::prelude::*;

verus! {

/// A character of the ASCII range.
pub open spec fn is_ascii(c: char) -> bool {
    (c as int) < 128
}

/// What `char::is_alphabetic` answers on a character beyond ASCII that is no white space.
pub uninterp spec fn unicode_alphabetic(c: char) -> bool;

/// What `char::is_numeric` answers on a character beyond ASCII that is no white space.
pub uninterp spec fn unicode_numeric(c: char) -> bool;

/// The white space of ASCII: the blank, and tab to carriage return.
pub open spec fn ascii_whitespace(c: char) -> bool {
    c == ' ' || '\t' <= c <= '\r'
}

/// The white space beyond ASCII: the next line control, the spaces of various widths and the
/// separators of lines and paragraphs.
pub open spec fn wide_whitespace(c: char) -> bool {
    let n = c as int;
    n == 0x85 || n == 0xa0 || n == 0x1680 || 0x2000 <= n <= 0x200a || n == 0x2028 || n == 0x2029
        || n == 0x202f || n == 0x205f || n == 0x3000
}

/// The letters of ASCII.
pub open spec fn ascii_letter(c: char) -> bool {
    'a' <= c <= 'z' || 'A' <= c <= 'Z'
}

/// The digits of ASCII.
pub open spec fn ascii_digit(c: char) -> bool {
    '0' <= c <= '9'
}

/// A white space character.
pub open spec fn whitespace(c: char) -> bool {
    ascii_whitespace(c) || wide_whitespace(c)
}

/// An alphabetic character.
pub open spec fn alphabetic(c: char) -> bool {
    if is_ascii(c) {
        ascii_letter(c)
    } else {
        !wide_whitespace(c) && unicode_alphabetic(c)
    }
}

/// A numeric character.
pub open spec fn numeric(c: char) -> bool {
    if is_ascii(c) {
        ascii_digit(c)
    } else {
        !wide_whitespace(c) && unicode_numeric(c)
    }
}

/// `char::is_whitespace`: the Unicode property White_Space. The blank and the control
/// characters from tab to carriage return have it, and beyond ASCII those of
/// `wide_whitespace`.
pub assume_specification[ char::is_whitespace ](c: char) -> (r: bool)
    ensures
        r == whitespace(c),
;

/// `char::is_alphabetic`: the Unicode property Alphabetic, which letters, letter numbers and
/// some marks have, and no separator or control character. Of ASCII, the letters have it;
/// beyond ASCII white space does not, and the answer on the others has the name
/// `unicode_alphabetic`.
pub assume_specification[ char::is_alphabetic ](c: char) -> (r: bool)
    ensures
        is_ascii(c) ==> r == ascii_letter(c),
        wide_whitespace(c) ==> !r,
        !is_ascii(c) && !wide_whitespace(c) ==> r == unicode_alphabetic(c),
;

/// `char::is_numeric`: the general categories for numbers, which no separator or control
/// character has. Of ASCII, the digits have one; beyond ASCII white space does not, and the
/// answer on the others has the name `unicode_numeric`.
pub assume_specification[ char::is_numeric ](c: char) -> (r: bool)
    ensures
        is_ascii(c) ==> r == ascii_digit(c),
        wide_whitespace(c) ==> !r,
        !is_ascii(c) && !wide_whitespace(c) ==> r == unicode_numeric(c),
;

/// A character that can stand in the name of a variable: alphanumeric or `_`.
pub open spec fn name_char(c: char) -> bool {
    c == '_' || alphabetic(c) || numeric(c)
}

/// Whether `c` can stand in the name of a variable.
pub fn is_name_char(c: char) -> (r: bool)
    ensures
        r == name_char(c),
{
    c == '_' || c.is_alphabetic() || c.is_numeric()
}

/// Nothing but white space.
pub open spec fn blank(s: Seq<char>) -> bool {
    forall|i: int| 0 <= i < s.len() ==> whitespace(s[i])
}

/// A name is made of letters, numbers and `_`; of ASCII these are `A` to `Z`, `a` to `z`, `0` to
/// `9` and `_`.
pub proof fn law_name_characters(c: char)
    ensures
        name_char(c) <==> c == '_' || alphabetic(c) || numeric(c),
        (c as int) < 128 ==> (name_char(c) <==> 'A' <= c <= 'Z' || 'a' <= c <= 'z' || '0' <= c
            <= '9' || c == '_'),
        whitespace(c) ==> !name_char(c),
{
}

/// A line is blank exactly where none of its characters is anything but white space.
pub proof fn law_blank(a: Seq<char>, c: char, b: Seq<char>)
    ensures
        blank(seq![]),
        blank(a + seq![c] + b) <==> blank(a) && whitespace(c) && blank(b),
{
    let s = a + seq![c] + b;
    if blank(s) {
        assert(s[a.len() as int] == c);
        assert forall|i: int| 0 <= i < a.len() implies whitespace(a[i]) by {
            assert(s[i] == a[i]);
        }
        assert forall|i: int| 0 <= i < b.len() implies whitespace(b[i]) by {
            assert(s[a.len() + 1 + i] == b[i]);
        }
    }
}

} // verus!
