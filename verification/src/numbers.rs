//! Numbers in decimal, and columns of a given width.
use crate::text::chars_of;
use vstd::prelude::*;
use vstd::string::*;

verus! {

/// The decimal digit of a number below ten.
pub open spec fn digit(d: nat) -> char {
    (48 + d) as char
}

/// A number in decimal.
pub open spec fn decimal(n: nat) -> Seq<char>
    decreases n,
{
    if n < 10 {
        seq![digit(n)]
    } else {
        decimal(n / 10).push(digit(n % 10))
    }
}

/// A number in decimal.
pub fn decimal_of(n: u64) -> (s: String)
    ensures
        s@ == decimal(n as nat),
    decreases n,
{
    let d: char = (48u8 + (n % 10) as u8) as char;
    if n < 10 {
        let mut s = String::new();
        s.push(d);
        assert(s@ =~= seq![digit(n as nat)]);
        s
    } else {
        let mut s = decimal_of(n / 10);
        s.push(d);
        s
    }
}

/// The number that decimal digits stand for.
pub open spec fn digits_value(s: Seq<char>) -> nat
    decreases s.len(),
{
    if s.len() == 0 {
        0
    } else {
        digits_value(s.drop_last()) * 10 + (s.last() as nat - 48) as nat
    }
}

/// Decimal digits and nothing else, one at least.
pub open spec fn all_digits(s: Seq<char>) -> bool {
    s.len() > 0 && forall|i: int| 0 <= i < s.len() ==> '0' <= #[trigger] s[i] <= '9'
}

/// The number from 0 to `max` that decimal digits stand for; none where a character is no
/// digit, where there is none, or where the number exceeds `max`.
pub open spec fn digits_up_to(s: Seq<char>, max: int) -> Option<int> {
    if all_digits(s) && digits_value(s) <= max {
        Some(digits_value(s) as int)
    } else {
        None
    }
}

/// The `usize` that a text stands for: decimal digits, after a `+` that may be there.
pub open spec fn as_usize(s: Seq<char>) -> Option<int> {
    if s.len() > 0 && s[0] == '+' {
        digits_up_to(s.skip(1), usize::MAX as int)
    } else {
        digits_up_to(s, usize::MAX as int)
    }
}

/// The `i32` that a text stands for: decimal digits, after a `+` or a `-` that may be there.
pub open spec fn as_i32(s: Seq<char>) -> Option<int> {
    if s.len() > 0 && s[0] == '-' {
        match digits_up_to(s.skip(1), -(i32::MIN as int)) {
            Some(n) => Some(-n),
            None => None,
        }
    } else if s.len() > 0 && s[0] == '+' {
        digits_up_to(s.skip(1), i32::MAX as int)
    } else {
        digits_up_to(s, i32::MAX as int)
    }
}

proof fn lemma_prefix_value(s: Seq<char>, k: int)
    requires
        0 <= k <= s.len(),
    ensures
        digits_value(s.take(k)) <= digits_value(s),
    decreases s.len() - k,
{
    if k == s.len() {
        assert(s.take(k) =~= s);
    } else {
        lemma_prefix_value(s, k + 1);
        assert(s.take(k + 1).drop_last() =~= s.take(k));
    }
}

/// The number that the characters from `from` on stand for, if it is at most `max`.
fn parse_digits(chars: &Vec<char>, from: usize, max: u64) -> (r: Option<u64>)
    requires
        from <= chars@.len(),
    ensures
        match r {
            Some(n) => digits_up_to(chars@.skip(from as int), max as int) == Some(n as int),
            None => digits_up_to(chars@.skip(from as int), max as int) is None,
        },
{
    let ghost s = chars@.skip(from as int);
    if from == chars.len() {
        return None;
    }
    let mut n: u64 = 0;
    let mut i: usize = from;
    while i < chars.len()
        invariant
            from <= i <= chars@.len(),
            s == chars@.skip(from as int),
            forall|j: int| 0 <= j < i - from ==> '0' <= #[trigger] s[j] <= '9',
            n == digits_value(s.take(i - from)),
            n <= max,
        decreases chars@.len() - i,
    {
        let c = chars[i];
        assert(c == s[i - from]);
        if c < '0' || c > '9' {
            return None;
        }
        let d: u64 = (c as u32 - 48) as u64;
        proof {
            lemma_prefix_value(s, i + 1 - from);
            assert(s.take(i + 1 - from).drop_last() =~= s.take(i - from));
        }
        if n > max / 10 || d > max - n * 10 {
            return None;
        }
        n = n * 10 + d;
        i = i + 1;
    }
    assert(s.take(i - from) =~= s);
    Some(n)
}

/// The `usize` that a text stands for, if it stands for one.
pub fn parse_usize(s: &str) -> (r: Option<usize>)
    ensures
        match r {
            Some(n) => as_usize(s@) == Some(n as int),
            None => as_usize(s@) is None,
        },
{
    let chars = chars_of(s);
    assert(chars@.skip(0) =~= s@);
    let from: usize = if chars.len() > 0 && chars[0] == '+' {
        1
    } else {
        0
    };
    match parse_digits(&chars, from, usize::MAX as u64) {
        Some(n) => Some(n as usize),
        None => None,
    }
}

/// The `i32` that a text stands for, if it stands for one.
pub fn parse_i32(s: &str) -> (r: Option<i32>)
    ensures
        match r {
            Some(n) => as_i32(s@) == Some(n as int),
            None => as_i32(s@) is None,
        },
{
    let chars = chars_of(s);
    assert(chars@.skip(0) =~= s@);
    if chars.len() > 0 && chars[0] == '-' {
        return match parse_digits(&chars, 1, 2147483648) {
            Some(n) => Some((-(n as i64)) as i32),
            None => None,
        };
    }
    let from: usize = if chars.len() > 0 && chars[0] == '+' {
        1
    } else {
        0
    };
    match parse_digits(&chars, from, 2147483647) {
        Some(n) => Some(n as i32),
        None => None,
    }
}

/// As many blanks as are asked for, none where the number is negative.
pub open spec fn blanks(n: int) -> Seq<char> {
    Seq::new(
        if n > 0 {
            n as nat
        } else {
            0
        },
        |i: int| ' ',
    )
}

/// `s` with blanks after it up to `width` characters.
pub open spec fn padded_right(s: Seq<char>, width: int) -> Seq<char> {
    s + blanks(width - s.len())
}

/// `s` with blanks before it up to `width` characters.
pub open spec fn padded_left(s: Seq<char>, width: int) -> Seq<char> {
    blanks(width - s.len()) + s
}

/// The blanks that `s` lacks to be `width` characters long.
fn padding(s: &str, width: usize) -> (r: String)
    ensures
        r@ == blanks(width - s@.len()),
{
    let mut i: usize = chars_of(s).len();
    let mut r = String::new();
    let ghost n: int = s@.len() as int;
    while i < width
        invariant
            i >= n,
            i <= width || i == n,
            r@ == blanks(i - n),
        decreases width - i,
    {
        r.push(' ');
        i = i + 1;
        assert(r@ =~= blanks(i - n));
    }
    assert(r@ =~= blanks(width - n));
    r
}

/// `s` with blanks after it up to `width` characters.
pub fn pad_right(s: &str, width: usize) -> (r: String)
    ensures
        r@ == padded_right(s@, width as int),
{
    let mut r = s.to_owned();
    r.append(padding(s, width).as_str());
    r
}

/// `s` with blanks before it up to `width` characters.
pub fn pad_left(s: &str, width: usize) -> (r: String)
    ensures
        r@ == padded_left(s@, width as int),
{
    let mut r = padding(s, width);
    r.append(s);
    r
}

/// A number in decimal is made of digits, without a zero in front but for zero itself, and
/// they stand for it.
pub proof fn law_decimal_reads_back(n: nat)
    ensures
        decimal(n).len() > 0,
        forall|i: int| 0 <= i < decimal(n).len() ==> '0' <= #[trigger] decimal(n)[i] <= '9',
        digits_value(decimal(n)) == n,
        decimal(n)[0] == '0' ==> n == 0 && decimal(n).len() == 1,
    decreases n,
{
    if n >= 10 {
        law_decimal_reads_back(n / 10);
        let s = decimal(n);
        assert(s.drop_last() =~= decimal(n / 10));
        assert(s[0] == decimal(n / 10)[0]);
        assert forall|i: int| 0 <= i < s.len() implies '0' <= #[trigger] s[i] <= '9' by {
            if i < s.len() - 1 {
                assert(s[i] == decimal(n / 10)[i]);
            }
        }
    } else {
        let s = decimal(n);
        assert(s.drop_last() =~= seq![]);
        assert(digits_value(s.drop_last()) == 0);
    }
}

/// A digit after others adds itself to ten times what they stand for.
pub proof fn law_digits(s: Seq<char>, c: char)
    requires
        '0' <= c <= '9',
    ensures
        digits_value(seq![]) == 0,
        digits_value(s.push(c)) == 10 * digits_value(s) + (c as int - '0' as int),
{
    assert(s.push(c).drop_last() =~= s);
}

/// Digits and nothing else.
pub open spec fn only_digits(d: Seq<char>) -> bool {
    d.len() > 0 && forall|i: int| 0 <= i < d.len() ==> '0' <= #[trigger] d[i] <= '9'
}

/// Digits are read as the number that they stand for, with or without a sign before them, as
/// long as it is in range, and nothing else is read as a number.
pub proof fn law_numbers_are_read(d: Seq<char>, s: Seq<char>)
    requires
        only_digits(d),
    ensures
        ({
            let n = digits_value(d) as int;
            &&& as_usize(d) == (if n <= usize::MAX {
                Some(n)
            } else {
                None
            })
            &&& as_usize(seq!['+'] + d) == as_usize(d)
            &&& as_i32(d) == (if n <= i32::MAX {
                Some(n)
            } else {
                None
            })
            &&& as_i32(seq!['+'] + d) == as_i32(d)
            &&& as_i32(seq!['-'] + d) == (if -n >= i32::MIN {
                Some(-n)
            } else {
                None
            })
        }),
        as_usize(s) is Some ==> only_digits(s) || s[0] == '+' && only_digits(s.skip(1)),
        as_i32(s) is Some ==> only_digits(s) || (s[0] == '+' || s[0] == '-') && only_digits(
            s.skip(1),
        ),
{
    assert('0' <= d[0] <= '9');
    assert((seq!['+'] + d).skip(1) =~= d);
    assert((seq!['-'] + d).skip(1) =~= d);
}

/// A column is as wide as asked for, or as its text where that is wider: the text stands at one
/// end of it, and blanks fill the rest.
pub proof fn law_columns(s: Seq<char>, width: int)
    ensures
        ({
            let n = if s.len() < width {
                width
            } else {
                s.len() as int
            };
            let (left, right) = (padded_left(s, width), padded_right(s, width));
            &&& left.len() == n && right.len() == n
            &&& left.skip(n - s.len()) == s && right.take(s.len() as int) == s
            &&& forall|i: int| 0 <= i < n - s.len() ==> #[trigger] left[i] == ' '
            &&& forall|i: int| s.len() <= i < n ==> #[trigger] right[i] == ' '
        }),
{
    let (left, right) = (padded_left(s, width), padded_right(s, width));
    let n = left.len() as int;
    assert(left.skip(n - s.len()) =~= s);
    assert(right.take(s.len() as int) =~= s);
}

} // verus!
