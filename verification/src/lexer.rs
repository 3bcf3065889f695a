//! From an input line to words: quoting, backslash escapes and parameter expansion.
use crate::chars::{is_name_char, name_char, whitespace};
use crate::table::Table;
use crate::text::{
    chars_of, find_from, lemma_span, lemma_span_is_longest, span, string_of, texts, up_to,
};
use vstd::prelude::*;
use vstd::string::*;

verus! {

/// The variables of the shell: the value of each name that is set.
pub type Variables = Map<Seq<char>, Seq<char>>;

/// The name of a variable that can be declared: a letter or `_`, then letters, digits
/// and `_`.
pub open spec fn valid_identifier(name: Seq<char>) -> bool {
    &&& name.len() > 0
    &&& name[0] == '_' || crate::chars::alphabetic(name[0])
    &&& forall|i: int| 0 < i < name.len() ==> name_char(name[i])
}

/// The characters of a name.
pub open spec fn in_name() -> spec_fn(char) -> bool {
    |c: char| name_char(c)
}

/// The parameter that follows a `$`: its name, and how many characters it takes. A name in
/// braces runs up to the closing brace, or to the end where none closes it.
pub open spec fn parameter(s: Seq<char>) -> (Seq<char>, int) {
    if s.len() > 0 && s[0] == '{' {
        let k = span(s.skip(1), up_to('}'));
        (s.subrange(1, 1 + k), if k + 1 < s.len() {
            k + 2
        } else {
            k + 1
        })
    } else {
        let k = span(s, in_name());
        (s.take(k), k)
    }
}

/// What a parameter stands for: the value of the variable, nothing where it is unset, and
/// a `$` where there is no name.
pub open spec fn expansion(name: Seq<char>, vars: Variables) -> Seq<char> {
    if name.len() == 0 {
        seq!['$']
    } else if vars.contains_key(name) {
        vars[name]
    } else {
        seq![]
    }
}

/// The characters that a backslash escapes between double quotes.
pub open spec fn escapable(c: char) -> bool {
    c == '"' || c == '\\' || c == '$' || c == '`'
}

pub proof fn lemma_parameter_len(s: Seq<char>)
    ensures
        0 <= parameter(s).1 <= s.len(),
{
    if s.len() > 0 && s[0] == '{' {
        lemma_span_is_longest(s.skip(1), up_to('}'));
    } else {
        lemma_span_is_longest(s, in_name());
    }
}

/// The first unit of a text between double quotes: what it contributes, and how many
/// characters it takes.
pub open spec fn quoted_unit(s: Seq<char>, vars: Variables) -> (Seq<char>, int) {
    if s[0] == '\\' && s.len() > 1 && escapable(s[1]) {
        (seq![s[1]], 2)
    } else if s[0] == '$' {
        let (name, k) = parameter(s.skip(1));
        (expansion(name, vars), 1 + k)
    } else {
        (seq![s[0]], 1)
    }
}

pub proof fn lemma_quoted_unit_len(s: Seq<char>, vars: Variables)
    requires
        s.len() > 0,
    ensures
        0 < quoted_unit(s, vars).1 <= s.len(),
{
    lemma_parameter_len(s.skip(1));
}

/// A text between double quotes, after the opening one: what it reads as, and how many
/// characters it takes together with the closing quote. It ends with the line where
/// no quote closes it.
pub open spec fn double_quoted(s: Seq<char>, vars: Variables) -> (Seq<char>, int)
    decreases s.len(),
{
    if s.len() == 0 {
        (seq![], 0)
    } else if s[0] == '"' {
        (seq![], 1)
    } else {
        proof {
            lemma_quoted_unit_len(s, vars);
        }
        let (head, n) = quoted_unit(s, vars);
        let (tail, m) = double_quoted(s.skip(n), vars);
        (head + tail, n + m)
    }
}

/// A text between single quotes, after the opening one: taken as it is up to the closing
/// quote or the end.
pub open spec fn single_quoted(s: Seq<char>) -> (Seq<char>, int) {
    let k = span(s, up_to('\''));
    (s.take(k), if k < s.len() {
        k + 1
    } else {
        k
    })
}

/// The first piece of a word: what it contributes, whether there is a word because of it,
/// and how many characters it takes. An expansion to nothing makes no word, and neither
/// does a backslash at the end of the line.
pub open spec fn piece(s: Seq<char>, vars: Variables) -> (Seq<char>, bool, int) {
    if s[0] == '$' {
        let (name, k) = parameter(s.skip(1));
        let value = expansion(name, vars);
        (value, value.len() > 0, 1 + k)
    } else if s[0] == '\\' {
        if s.len() > 1 {
            (seq![s[1]], true, 2)
        } else {
            (seq![], false, 1)
        }
    } else if s[0] == '\'' {
        let (t, k) = single_quoted(s.skip(1));
        (t, true, 1 + k)
    } else if s[0] == '"' {
        let (t, k) = double_quoted(s.skip(1), vars);
        (t, true, 1 + k)
    } else {
        (seq![s[0]], true, 1)
    }
}

pub proof fn lemma_double_quoted_len(s: Seq<char>, vars: Variables)
    ensures
        0 <= double_quoted(s, vars).1 <= s.len(),
    decreases s.len(),
{
    if s.len() > 0 && s[0] != '"' {
        lemma_quoted_unit_len(s, vars);
        lemma_double_quoted_len(s.skip(quoted_unit(s, vars).1), vars);
    }
}

pub proof fn lemma_piece_len(s: Seq<char>, vars: Variables)
    requires
        s.len() > 0,
    ensures
        0 < piece(s, vars).2 <= s.len(),
{
    lemma_parameter_len(s.skip(1));
    lemma_span_is_longest(s.skip(1), up_to('\''));
    lemma_double_quoted_len(s.skip(1), vars);
}

/// The word that has been begun, as a list of none or one.
pub open spec fn begun(word: Option<Seq<char>>) -> Seq<Seq<char>> {
    match word {
        Some(w) => seq![w],
        None => seq![],
    }
}

/// The text of the word that has been begun.
pub open spec fn word_text(word: Option<Seq<char>>) -> Seq<char> {
    match word {
        Some(w) => w,
        None => seq![],
    }
}

/// The words of `s`, where `word` has been begun before it: pieces that follow each other
/// make one word, and white space ends it.
pub open spec fn words(s: Seq<char>, vars: Variables, word: Option<Seq<char>>) -> Seq<Seq<char>>
    decreases s.len(),
{
    if s.len() == 0 {
        begun(word)
    } else if whitespace(s[0]) {
        begun(word) + words(s.skip(1), vars, None)
    } else {
        proof {
            lemma_piece_len(s, vars);
        }
        let (t, makes_word, n) = piece(s, vars);
        words(s.skip(n), vars, if makes_word {
            Some(word_text(word) + t)
        } else {
            word
        })
    }
}

/// The words of an input line.
pub open spec fn line_words(s: Seq<char>, vars: Variables) -> Seq<Seq<char>> {
    words(s, vars, None)
}

/// Whether `name` can be declared: a letter or `_`, then letters, digits and `_`.
pub fn is_valid_identifier(name: &str) -> (r: bool)
    ensures
        r == valid_identifier(name@),
{
    let chars = chars_of(name);
    if chars.len() == 0 {
        return false;
    }
    if chars[0] != '_' && !chars[0].is_alphabetic() {
        return false;
    }
    let mut i: usize = 1;
    while i < chars.len()
        invariant
            1 <= i <= chars@.len(),
            chars@ == name@,
            forall|j: int| 0 < j < i ==> name_char(name@[j]),
        decreases chars@.len() - i,
    {
        if !is_name_char(chars[i]) {
            return false;
        }
        i = i + 1;
    }
    true
}

/// The index of the first character at or after `from` that cannot stand in a name.
fn find_name_end(chars: &Vec<char>, from: usize) -> (i: usize)
    requires
        from <= chars@.len(),
    ensures
        i == from + span(chars@.skip(from as int), in_name()),
        from <= i <= chars@.len(),
{
    let mut i: usize = from;
    let ghost s = chars@.skip(from as int);
    while i < chars.len() && is_name_char(chars[i])
        invariant
            from <= i <= chars@.len(),
            s == chars@.skip(from as int),
            forall|j: int| 0 <= j < i - from ==> in_name()(s[j]),
        decreases chars@.len() - i,
    {
        assert(in_name()(s[i - from]));
        i = i + 1;
    }
    proof {
        lemma_span(s, in_name(), i - from);
    }
    i
}

/// Expands the parameter at `pos`, just after its `$`: moves `pos` past it and appends what
/// it stands for to `current`. Whether that was any text at all is returned; an unquoted
/// word is dropped where it was none.
pub fn expand_var(
    chars: &Vec<char>,
    pos: &mut usize,
    current: &mut String,
    variables: &Table,
) -> (grew: bool)
    requires
        *old(pos) <= chars@.len(),
    ensures
        ({
            let (name, k) = parameter(chars@.skip(*old(pos) as int));
            let value = expansion(name, variables@);
            &&& *final(pos) == *old(pos) + k
            &&& final(current)@ == old(current)@ + value
            &&& grew == (value.len() > 0)
        }),
        *final(pos) <= chars@.len(),
{
    let start: usize = *pos;
    let ghost s = chars@.skip(start as int);
    let name: String;
    if start < chars.len() && chars[start] == '{' {
        let end: usize = find_from(chars, start + 1, '}');
        assert(chars@.skip(start + 1) =~= s.skip(1));
        name = string_of(chars, start + 1, end);
        *pos = if end < chars.len() {
            end + 1
        } else {
            end
        };
        assert(name@ =~= parameter(s).0);
    } else {
        let end: usize = find_name_end(chars, start);
        name = string_of(chars, start, end);
        *pos = end;
        assert(name@ =~= parameter(s).0);
    }
    if name.as_str().is_empty() {
        current.push('$');
        assert(current@ =~= old(current)@ + expansion(name@, variables@));
        return true;
    }
    match variables.get(name.as_str()) {
        Some(v) => {
            current.append(v.as_str());
            !v.as_str().is_empty()
        },
        None => {
            assert(current@ =~= old(current)@ + expansion(name@, variables@));
            false
        },
    }
}

/// Appends the text between double quotes that starts at `pos`, after the opening quote,
/// and moves `pos` past the closing one.
fn read_double_quoted(
    chars: &Vec<char>,
    pos: &mut usize,
    current: &mut String,
    variables: &Table,
)
    requires
        *old(pos) <= chars@.len(),
    ensures
        ({
            let (t, k) = double_quoted(chars@.skip(*old(pos) as int), variables@);
            &&& *final(pos) == *old(pos) + k
            &&& final(current)@ == old(current)@ + t
        }),
        *final(pos) <= chars@.len(),
{
    let ghost start: int = *pos as int;
    let ghost goal = double_quoted(chars@.skip(start), variables@);
    assert(current@ + goal.0 =~= old(current)@ + goal.0);
    while *pos < chars.len() && chars[*pos] != '"'
        invariant
            start <= *pos <= chars@.len(),
            ({
                let (t, k) = double_quoted(chars@.skip(*pos as int), variables@);
                &&& *pos + k == start + goal.1
                &&& current@ + t == old(current)@ + goal.0
            }),
        decreases chars@.len() - *pos,
    {
        let ghost at: int = *pos as int;
        let ghost s = chars@.skip(at);
        let ghost before = current@;
        proof {
            lemma_quoted_unit_len(s, variables@);
        }
        let c = chars[*pos];
        if c == '\\' && *pos + 1 < chars.len() && is_escapable(chars[*pos + 1]) {
            current.push(chars[*pos + 1]);
            *pos = *pos + 2;
        } else if c == '$' {
            *pos = *pos + 1;
            assert(chars@.skip(*pos as int) =~= s.skip(1));
            let _ = expand_var(chars, pos, current, variables);
        } else {
            current.push(c);
            *pos = *pos + 1;
        }
        proof {
            let (head, n) = quoted_unit(s, variables@);
            assert(*pos == at + n);
            assert(current@ =~= before + head);
            assert(chars@.skip(*pos as int) =~= s.skip(n));
            let tail = double_quoted(s.skip(n), variables@).0;
            assert(before + (head + tail) =~= (before + head) + tail);
        }
    }
    let ghost s = chars@.skip(*pos as int);
    assert(current@ + double_quoted(s, variables@).0 =~= current@);
    if *pos < chars.len() {
        *pos = *pos + 1;
    }
}

/// Whether a backslash escapes `c` between double quotes.
fn is_escapable(c: char) -> (r: bool)
    ensures
        r == escapable(c),
{
    c == '"' || c == '\\' || c == '$' || c == '`'
}

/// The words of an input line, with quotes and escapes taken away and parameters expanded.
pub fn tokenize(input: &str, variables: &Table) -> (tokens: Vec<String>)
    ensures
        texts(tokens@) == line_words(input@, variables@),
{
    let chars = chars_of(input);
    let mut tokens: Vec<String> = Vec::new();
    let mut current = String::new();
    let mut started = false;
    let mut pos: usize = 0;
    let ghost goal = line_words(input@, variables@);
    let ghost mut word: Option<Seq<char>> = None;
    assert(chars@.skip(0) =~= input@);
    assert(texts(tokens@) + goal =~= goal);
    while pos < chars.len()
        invariant
            pos <= chars@.len(),
            started == (word is Some),
            current@ == word_text(word),
            texts(tokens@) + words(chars@.skip(pos as int), variables@, word) == goal,
        decreases chars@.len() - pos,
    {
        let ghost s = chars@.skip(pos as int);
        let ghost at: int = pos as int;
        let ghost before = current@;
        let ghost done = texts(tokens@);
        let ghost begun_word = word;
        proof {
            lemma_piece_len(s, variables@);
        }
        let c = chars[pos];
        pos = pos + 1;
        assert(chars@.skip(pos as int) =~= s.skip(1));
        if c.is_whitespace() {
            if started {
                tokens.push(current);
                current = String::new();
                started = false;
            }
            proof {
                word = None;
                assert(texts(tokens@) =~= done + begun(begun_word));
                let rest = words(s.skip(1), variables@, None);
                assert(done + (begun(begun_word) + rest) =~= (done + begun(begun_word)) + rest);
            }
        } else {
            if c == '$' {
                if expand_var(&chars, &mut pos, &mut current, variables) {
                    started = true;
                }
            } else if c == '\\' {
                if pos < chars.len() {
                    current.push(chars[pos]);
                    pos = pos + 1;
                    started = true;
                }
            } else if c == '\'' {
                let end: usize = find_from(&chars, pos, '\'');
                let inner = string_of(&chars, pos, end);
                current.append(inner.as_str());
                assert(inner@ =~= single_quoted(s.skip(1)).0);
                pos = if end < chars.len() {
                    end + 1
                } else {
                    end
                };
                started = true;
            } else if c == '"' {
                read_double_quoted(&chars, &mut pos, &mut current, variables);
                started = true;
            } else {
                current.push(c);
                started = true;
            }
            proof {
                let (t, makes_word, n) = piece(s, variables@);
                assert(pos == at + n);
                assert(current@ =~= before + t);
                assert(chars@.skip(pos as int) =~= s.skip(n));
                word = if makes_word {
                    Some(word_text(begun_word) + t)
                } else {
                    begun_word
                };
                assert(current@ =~= word_text(word));
            }
        }
    }
    if started {
        tokens.push(current);
    }
    assert(texts(tokens@) =~= goal);
    tokens
}

/// A name can be declared exactly where it begins with a letter or `_` and every character
/// after that is a letter, a number or `_`.
pub proof fn law_identifiers(first: char, rest: Seq<char>)
    ensures
        !valid_identifier(seq![]),
        valid_identifier(seq![first] + rest) <==> {
            &&& first == '_' || crate::chars::alphabetic(first)
            &&& forall|i: int|
                0 <= i < rest.len() ==> {
                    ||| #[trigger] rest[i] == '_'
                    ||| crate::chars::alphabetic(rest[i])
                    ||| crate::chars::numeric(rest[i])
                }
        },
{
    let name = seq![first] + rest;
    assert forall|i: int| 0 <= i < rest.len() implies name[i + 1] == rest[i] by {}
    if valid_identifier(name) {
        assert forall|i: int| 0 <= i < rest.len() implies #[trigger] rest[i] == '_'
            || crate::chars::alphabetic(rest[i]) || crate::chars::numeric(rest[i]) by {
            assert(name_char(name[i + 1]));
        }
    } else if first == '_' || crate::chars::alphabetic(first) {
        let i = choose|i: int| 0 < i < name.len() && !name_char(name[i]);
        assert(rest[i - 1] == name[i]);
    }
}

} // verus!
