//! What quoting, escaping and expansion mean for the words of a line.
use crate::chars::{name_char, whitespace};
use crate::lexer::{
    begun, double_quoted, escapable, expansion, in_name, lemma_double_quoted_len,
    lemma_parameter_len, lemma_piece_len, line_words, parameter, piece, quoted_unit, word_text,
    words, Variables,
};
use crate::text::{join, lemma_join_front, lemma_span, lemma_span_is_longest, span, up_to};
use vstd::prelude::*;

verus! {

/// A word between single quotes.
pub open spec fn in_single_quotes(w: Seq<char>) -> Seq<char> {
    seq!['\''] + w + seq!['\'']
}

/// A text between double quotes.
pub open spec fn in_double_quotes(w: Seq<char>) -> Seq<char> {
    seq!['"'] + w + seq!['"']
}

/// A word with a backslash before each of its characters.
pub open spec fn escaped(w: Seq<char>) -> Seq<char> {
    Seq::new(
        2 * w.len(),
        |i: int|
            if i % 2 == 0 {
                '\\'
            } else {
                w[i / 2]
            },
    )
}

/// A character that stands for itself outside quotes.
pub open spec fn plain(c: char) -> bool {
    !whitespace(c) && c != '$' && c != '\\' && c != '\'' && c != '"'
}

/// A text of characters that stand for themselves outside quotes.
pub open spec fn all_plain(w: Seq<char>) -> bool {
    forall|i: int| 0 <= i < w.len() ==> plain(w[i])
}

proof fn lemma_end_of_line(s: Seq<char>, word: Option<Seq<char>>, vars: Variables)
    requires
        s.len() == 0,
    ensures
        words(s, vars, word) == begun(word),
{
}

proof fn lemma_single_quotes_step(w: Seq<char>, rest: Seq<char>, vars: Variables)
    requires
        !w.contains('\''),
    ensures
        words(in_single_quotes(w) + rest, vars, None) == words(rest, vars, Some(w)),
{
    let s = in_single_quotes(w) + rest;
    let t = s.skip(1);
    assert(t =~= w + seq!['\''] + rest);
    assert forall|i: int| 0 <= i < w.len() implies up_to('\'')(t[i]) by {
        assert(t[i] == w[i]);
    }
    assert(t[w.len() as int] == '\'');
    lemma_span(t, up_to('\''), w.len() as int);
    assert(t.take(w.len() as int) =~= w);
    assert(piece(s, vars) == (w, true, w.len() as int + 2));
    assert(s.skip(w.len() as int + 2) =~= rest);
    assert(Seq::<char>::empty() + w =~= w);
}

/// Single quotes keep every character as it is: a word without a single quote, put between
/// single quotes, is read back whole, even where it is empty or holds blanks, `$` or `\`.
pub proof fn law_single_quotes_are_literal(w: Seq<char>, vars: Variables)
    requires
        !w.contains('\''),
    ensures
        line_words(in_single_quotes(w), vars) == seq![w],
{
    lemma_single_quotes_step(w, seq![], vars);
    assert(in_single_quotes(w) + seq![] =~= in_single_quotes(w));
}

/// A list of words, each between single quotes and with blanks between them, is read back
/// as the same list.
pub proof fn law_quoted_words_round_trip(ws: Seq<Seq<char>>, vars: Variables)
    requires
        forall|i: int| 0 <= i < ws.len() ==> !(#[trigger] ws[i]).contains('\''),
    ensures
        line_words(join(ws.map_values(|w: Seq<char>| in_single_quotes(w)), seq![' ']), vars) == ws,
    decreases ws.len(),
{
    let quoted = ws.map_values(|w: Seq<char>| in_single_quotes(w));
    if ws.len() == 0 {
        assert(line_words(join(quoted, seq![' ']), vars) =~= ws);
    } else if ws.len() == 1 {
        law_single_quotes_are_literal(ws[0], vars);
        assert(seq![ws[0]] =~= ws);
    } else {
        let rest = ws.skip(1);
        let tail = join(rest.map_values(|w: Seq<char>| in_single_quotes(w)), seq![' ']);
        lemma_join_front(quoted, seq![' ']);
        assert(quoted.skip(1) =~= rest.map_values(|w: Seq<char>| in_single_quotes(w)));
        assert forall|i: int| 0 <= i < rest.len() implies !(#[trigger] rest[i]).contains('\'') by {
            assert(rest[i] == ws[i + 1]);
        }
        law_quoted_words_round_trip(rest, vars);
        let after = seq![' '] + tail;
        assert(join(quoted, seq![' ']) =~= in_single_quotes(ws[0]) + after);
        lemma_single_quotes_step(ws[0], after, vars);
        assert(after.skip(1) =~= tail);
        assert(seq![ws[0]] + rest =~= ws);
    }
}

proof fn lemma_escaped_words(w: Seq<char>, before: Seq<char>, vars: Variables)
    requires
        w.len() > 0,
    ensures
        words(escaped(w), vars, Some(before)) == seq![before + w],
    decreases w.len(),
{
    let s = escaped(w);
    assert(piece(s, vars) == (seq![w[0]], true, 2int));
    assert(s.skip(2) =~= escaped(w.skip(1)));
    let now = before + seq![w[0]];
    if w.len() > 1 {
        lemma_escaped_words(w.skip(1), now, vars);
        assert(now + w.skip(1) =~= before + w);
    } else {
        lemma_end_of_line(s.skip(2), Some(now), vars);
        assert(now =~= before + w);
    }
}

/// A backslash outside quotes takes the meaning from any character: a word with a backslash
/// before each character is read back whole.
pub proof fn law_backslash_escapes_any_character(w: Seq<char>, vars: Variables)
    requires
        w.len() > 0,
    ensures
        line_words(escaped(w), vars) == seq![w],
{
    let s = escaped(w);
    assert(piece(s, vars) == (seq![w[0]], true, 2int));
    assert(s.skip(2) =~= escaped(w.skip(1)));
    assert(Seq::<char>::empty() + seq![w[0]] =~= seq![w[0]]);
    if w.len() > 1 {
        lemma_escaped_words(w.skip(1), seq![w[0]], vars);
        assert(seq![w[0]] + w.skip(1) =~= w);
    } else {
        lemma_end_of_line(s.skip(2), Some(seq![w[0]]), vars);
        assert(seq![w[0]] =~= w);
    }
}

proof fn lemma_plain_prefix(w: Seq<char>, rest: Seq<char>, before: Seq<char>, vars: Variables)
    requires
        all_plain(w),
    ensures
        words(w + rest, vars, Some(before)) == words(rest, vars, Some(before + w)),
    decreases w.len(),
{
    if w.len() == 0 {
        assert(w + rest =~= rest);
        assert(before + w =~= before);
    } else {
        let s = w + rest;
        assert(s[0] == w[0] && plain(w[0]));
        assert(s.skip(1) =~= w.skip(1) + rest);
        lemma_plain_prefix(w.skip(1), rest, before + seq![w[0]], vars);
        assert(before + seq![w[0]] + w.skip(1) =~= before + w);
    }
}

proof fn lemma_plain_word(w: Seq<char>, rest: Seq<char>, vars: Variables)
    requires
        all_plain(w),
        w.len() > 0,
    ensures
        words(w + rest, vars, None) == words(rest, vars, Some(w)),
{
    let s = w + rest;
    assert(s[0] == w[0] && plain(w[0]));
    assert(s.skip(1) =~= w.skip(1) + rest);
    assert(Seq::<char>::empty() + seq![w[0]] =~= seq![w[0]]);
    lemma_plain_prefix(w.skip(1), rest, seq![w[0]], vars);
    assert(seq![w[0]] + w.skip(1) =~= w);
}

/// Words of characters that stand for themselves, with blanks between them, are read back
/// as the same list.
pub proof fn law_plain_words_split_at_blanks(ws: Seq<Seq<char>>, vars: Variables)
    requires
        forall|i: int| 0 <= i < ws.len() ==> all_plain(#[trigger] ws[i]) && ws[i].len() > 0,
    ensures
        line_words(join(ws, seq![' ']), vars) == ws,
    decreases ws.len(),
{
    if ws.len() == 0 {
        assert(line_words(join(ws, seq![' ']), vars) =~= ws);
    } else if ws.len() == 1 {
        lemma_plain_word(ws[0], seq![], vars);
        assert(ws[0] + seq![] =~= ws[0]);
        assert(seq![ws[0]] =~= ws);
    } else {
        let rest = ws.skip(1);
        lemma_join_front(ws, seq![' ']);
        law_plain_words_split_at_blanks(rest, vars);
        let after = seq![' '] + join(rest, seq![' ']);
        assert(join(ws, seq![' ']) =~= ws[0] + after);
        lemma_plain_word(ws[0], after, vars);
        assert(after.skip(1) =~= join(rest, seq![' ']));
        assert(seq![ws[0]] + rest =~= ws);
    }
}

proof fn lemma_double_quoted_literal(w: Seq<char>, rest: Seq<char>, vars: Variables)
    requires
        !w.contains('"'),
        !w.contains('\\'),
        !w.contains('$'),
    ensures
        double_quoted(w + seq!['"'] + rest, vars) == (w, w.len() as int + 1),
    decreases w.len(),
{
    let s = w + seq!['"'] + rest;
    if w.len() == 0 {
        assert(s[0] == '"');
        assert(w =~= seq![]);
    } else {
        assert(w.contains(w[0]));
        let t = w.skip(1);
        assert forall|c: char| t.contains(c) implies w.contains(c) by {
            let i = choose|i: int| 0 <= i < t.len() && t[i] == c;
            assert(w[i + 1] == c);
        }
        lemma_double_quoted_literal(t, rest, vars);
        assert(s.skip(1) =~= t + seq!['"'] + rest);
        assert(seq![w[0]] + t =~= w);
    }
}

/// Double quotes keep every character but `"`, `\` and `$` as it is, blanks among them.
pub proof fn law_double_quotes_keep_blanks(w: Seq<char>, vars: Variables)
    requires
        !w.contains('"'),
        !w.contains('\\'),
        !w.contains('$'),
    ensures
        line_words(in_double_quotes(w), vars) == seq![w],
{
    let s = in_double_quotes(w);
    assert(s.skip(1) =~= w + seq!['"'] + seq![]);
    lemma_double_quoted_literal(w, seq![], vars);
    assert(piece(s, vars) == (w, true, w.len() as int + 2));
    assert(Seq::<char>::empty() + w =~= w);
    lemma_end_of_line(s.skip(w.len() as int + 2), Some(w), vars);
}

/// A text with a backslash before each character that means something between double quotes.
pub open spec fn shielded(w: Seq<char>) -> Seq<char>
    decreases w.len(),
{
    if w.len() == 0 {
        seq![]
    } else if escapable(w[0]) {
        seq!['\\', w[0]] + shielded(w.skip(1))
    } else {
        seq![w[0]] + shielded(w.skip(1))
    }
}

proof fn lemma_double_quoted_shielded(w: Seq<char>, rest: Seq<char>, vars: Variables)
    ensures
        double_quoted(shielded(w) + seq!['"'] + rest, vars) == (w, shielded(w).len() as int + 1),
    decreases w.len(),
{
    let s = shielded(w) + seq!['"'] + rest;
    if w.len() == 0 {
        assert(s[0] == '"');
        assert(w =~= seq![]);
    } else {
        let t = w.skip(1);
        lemma_double_quoted_shielded(t, rest, vars);
        if escapable(w[0]) {
            assert(s[0] == '\\' && s[1] == w[0]);
            assert(quoted_unit(s, vars) == (seq![w[0]], 2int));
            assert(s.skip(2) =~= shielded(t) + seq!['"'] + rest);
        } else {
            assert(s[0] == w[0]);
            assert(quoted_unit(s, vars) == (seq![w[0]], 1int));
            assert(s.skip(1) =~= shielded(t) + seq!['"'] + rest);
        }
        assert(seq![w[0]] + t =~= w);
    }
}

/// Any text at all can be put between double quotes: with a backslash before each `"`, `\`, `$`
/// and `` ` `` it is read back whole.
pub proof fn law_double_quotes_round_trip(w: Seq<char>, vars: Variables)
    ensures
        line_words(in_double_quotes(shielded(w)), vars) == seq![w],
{
    let s = in_double_quotes(shielded(w));
    let n = shielded(w).len() as int;
    assert(s.skip(1) =~= shielded(w) + seq!['"'] + seq![]);
    lemma_double_quoted_shielded(w, seq![], vars);
    assert(piece(s, vars) == (w, true, n + 2));
    assert(Seq::<char>::empty() + w =~= w);
    lemma_end_of_line(s.skip(n + 2), Some(w), vars);
}

/// A list of texts, each between double quotes with its backslashes and with blanks between
/// them, is read back as the same list.
pub proof fn law_double_quoted_words_round_trip(ws: Seq<Seq<char>>, vars: Variables)
    ensures
        line_words(
            join(ws.map_values(|w: Seq<char>| in_double_quotes(shielded(w))), seq![' ']),
            vars,
        ) == ws,
    decreases ws.len(),
{
    let quoted = ws.map_values(|w: Seq<char>| in_double_quotes(shielded(w)));
    if ws.len() == 0 {
        assert(line_words(join(quoted, seq![' ']), vars) =~= ws);
    } else if ws.len() == 1 {
        law_double_quotes_round_trip(ws[0], vars);
        assert(seq![ws[0]] =~= ws);
    } else {
        let rest = ws.skip(1);
        let tail = join(
            rest.map_values(|w: Seq<char>| in_double_quotes(shielded(w))),
            seq![' '],
        );
        lemma_join_front(quoted, seq![' ']);
        assert(quoted.skip(1) =~= rest.map_values(|w: Seq<char>| in_double_quotes(shielded(w))));
        law_double_quoted_words_round_trip(rest, vars);
        let after = seq![' '] + tail;
        let s = in_double_quotes(shielded(ws[0])) + after;
        assert(join(quoted, seq![' ']) =~= s);
        let n = shielded(ws[0]).len() as int;
        assert(s.skip(1) =~= shielded(ws[0]) + seq!['"'] + after);
        lemma_double_quoted_shielded(ws[0], after, vars);
        assert(piece(s, vars) == (ws[0], true, n + 2));
        assert(Seq::<char>::empty() + ws[0] =~= ws[0]);
        assert(s.skip(n + 2) =~= after);
        assert(words(s, vars, None) == words(after, vars, Some(ws[0])));
        assert(after.skip(1) =~= tail);
        assert(seq![ws[0]] + rest =~= ws);
    }
}

/// Between double quotes a backslash before any other character is kept, and so is the
/// character.
pub proof fn law_backslash_is_kept_in_double_quotes(c: char, vars: Variables)
    requires
        !escapable(c),
    ensures
        line_words(in_double_quotes(seq!['\\', c]), vars) == seq![seq!['\\', c]],
{
    let s = in_double_quotes(seq!['\\', c]);
    let t = s.skip(1);
    assert(t =~= seq!['\\', c, '"']);
    assert(quoted_unit(t, vars) == (seq!['\\'], 1int));
    let u = t.skip(1);
    assert(u =~= seq![c, '"']);
    assert(quoted_unit(u, vars) == (seq![c], 1int));
    let end = u.skip(1);
    assert(end =~= seq!['"']);
    assert(double_quoted(end, vars) == (Seq::<char>::empty(), 1int));
    assert(double_quoted(u, vars) == (seq![c] + Seq::<char>::empty(), 2int));
    assert(double_quoted(t, vars).1 == 3);
    assert(double_quoted(t, vars).0 =~= seq!['\\', c]);
    assert(piece(s, vars) == (seq!['\\', c], true, 4int));
    assert(Seq::<char>::empty() + seq!['\\', c] =~= seq!['\\', c]);
    lemma_end_of_line(s.skip(4), Some(seq!['\\', c]), vars);
}

/// A text of characters that can stand in a name, and not empty.
pub open spec fn is_name(name: Seq<char>) -> bool {
    name.len() > 0 && forall|i: int| 0 <= i < name.len() ==> name_char(name[i])
}

proof fn lemma_bare_parameter(name: Seq<char>, rest: Seq<char>)
    requires
        is_name(name),
        rest.len() > 0 ==> !name_char(rest[0]),
    ensures
        parameter(name + rest) == (name, name.len() as int),
{
    let s = name + rest;
    assert(name_char(name[0]) && s[0] == name[0]);
    assert forall|i: int| 0 <= i < name.len() implies in_name()(s[i]) by {
        assert(s[i] == name[i]);
    }
    lemma_span(s, in_name(), name.len() as int);
    assert(s.take(name.len() as int) =~= name);
}

proof fn lemma_braced_parameter(name: Seq<char>, rest: Seq<char>)
    requires
        !name.contains('}'),
    ensures
        parameter(seq!['{'] + name + seq!['}'] + rest) == (name, name.len() as int + 2),
{
    let s = seq!['{'] + name + seq!['}'] + rest;
    let t = s.skip(1);
    assert(t =~= name + seq!['}'] + rest);
    assert forall|i: int| 0 <= i < name.len() implies up_to('}')(t[i]) by {
        assert(t[i] == name[i]);
    }
    assert(t[name.len() as int] == '}');
    lemma_span(t, up_to('}'), name.len() as int);
    assert(s.subrange(1, 1 + name.len() as int) =~= name);
}

/// What `$NAME` reads as outside quotes: one word with the value, whatever characters that
/// value holds, and no word at all where the variable is unset or empty.
pub open spec fn unquoted_value(name: Seq<char>, vars: Variables) -> Seq<Seq<char>> {
    let value = expansion(name, vars);
    if value.len() > 0 {
        seq![value]
    } else {
        seq![]
    }
}

proof fn lemma_lone_parameter(s: Seq<char>, name: Seq<char>, vars: Variables)
    requires
        parameter(s) == (name, s.len() as int),
    ensures
        line_words(seq!['$'] + s, vars) == unquoted_value(name, vars),
{
    let line = seq!['$'] + s;
    let value = expansion(name, vars);
    assert(line.skip(1) =~= s);
    assert(piece(line, vars) == (value, value.len() > 0, 1 + s.len() as int));
    assert(Seq::<char>::empty() + value =~= value);
    lemma_end_of_line(line.skip(1 + s.len() as int), Some(value), vars);
    lemma_end_of_line(line.skip(1 + s.len() as int), None, vars);
}

/// `$NAME` and `${NAME}` read alike: the value of the variable as one word that is not split
/// again, or no word where the variable is unset or empty.
pub proof fn law_both_parameter_forms_agree(name: Seq<char>, vars: Variables)
    requires
        is_name(name),
    ensures
        line_words(seq!['$'] + name, vars) == unquoted_value(name, vars),
        line_words(seq!['$'] + (seq!['{'] + name + seq!['}']), vars) == unquoted_value(name, vars),
{
    lemma_bare_parameter(name, seq![]);
    assert(name + seq![] =~= name);
    lemma_lone_parameter(name, name, vars);
    if name.contains('}') {
        let i = choose|i: int| 0 <= i < name.len() && name[i] == '}';
        assert(name_char(name[i]));
    }
    lemma_braced_parameter(name, seq![]);
    let braced = seq!['{'] + name + seq!['}'];
    assert(braced + seq![] =~= braced);
    lemma_lone_parameter(braced, name, vars);
}

/// An unset variable expands to nothing, and an unquoted word of nothing else is dropped.
pub proof fn law_unset_variable_makes_no_word(name: Seq<char>, vars: Variables)
    requires
        is_name(name),
        !vars.contains_key(name),
    ensures
        line_words(seq!['$'] + name, vars).len() == 0,
        line_words(seq!['$'] + (seq!['{'] + name + seq!['}']), vars).len() == 0,
{
    law_both_parameter_forms_agree(name, vars);
}

/// A parameter in braces for each of the names, one after the other.
pub open spec fn braced_parameters(names: Seq<Seq<char>>) -> Seq<char>
    decreases names.len(),
{
    if names.len() == 0 {
        seq![]
    } else {
        seq!['$'] + (seq!['{'] + names[0] + seq!['}']) + braced_parameters(names.skip(1))
    }
}

/// Parameters outside quotes that all expand to nothing leave no trace: the words are those of
/// the rest of the line, whatever word has been begun before them. Where nothing else stands
/// in a word, there is no word.
pub proof fn law_empty_expansions_leave_no_trace(
    names: Seq<Seq<char>>,
    rest: Seq<char>,
    word: Option<Seq<char>>,
    vars: Variables,
)
    requires
        forall|i: int|
            0 <= i < names.len() ==> !(#[trigger] names[i]).contains('}') && expansion(
                names[i],
                vars,
            ).len() == 0,
    ensures
        words(braced_parameters(names) + rest, vars, word) == words(rest, vars, word),
    decreases names.len(),
{
    if names.len() == 0 {
        assert(braced_parameters(names) + rest =~= rest);
    } else {
        let name = names[0];
        let after = braced_parameters(names.skip(1)) + rest;
        let s = braced_parameters(names) + rest;
        assert(!name.contains('}') && expansion(name, vars).len() == 0);
        assert(s.skip(1) =~= seq!['{'] + name + seq!['}'] + after);
        lemma_braced_parameter(name, after);
        assert(piece(s, vars).2 == name.len() as int + 3 && !piece(s, vars).1);
        assert(s.skip(name.len() as int + 3) =~= after);
        assert forall|i: int| 0 <= i < names.skip(1).len() implies !(#[trigger] names.skip(
            1,
        )[i]).contains('}') && expansion(names.skip(1)[i], vars).len() == 0 by {
            assert(names.skip(1)[i] == names[i + 1]);
        }
        law_empty_expansions_leave_no_trace(names.skip(1), rest, word, vars);
    }
}

proof fn lemma_quoted_parameter(s: Seq<char>, name: Seq<char>, vars: Variables)
    requires
        parameter(s + seq!['"']) == (name, s.len() as int),
    ensures
        line_words(in_double_quotes(seq!['$'] + s), vars) == seq![expansion(name, vars)],
{
    let line = in_double_quotes(seq!['$'] + s);
    let value = expansion(name, vars);
    let t = line.skip(1);
    assert(t =~= seq!['$'] + s + seq!['"']);
    assert(t.skip(1) =~= s + seq!['"']);
    assert(quoted_unit(t, vars) == (value, 1 + s.len() as int));
    let end = t.skip(1 + s.len() as int);
    assert(end =~= seq!['"']);
    assert(double_quoted(end, vars) == (Seq::<char>::empty(), 1int));
    assert(value + Seq::<char>::empty() =~= value);
    assert(double_quoted(t, vars) == (value, 2 + s.len() as int));
    assert(piece(line, vars) == (value, true, 3 + s.len() as int));
    assert(Seq::<char>::empty() + value =~= value);
    lemma_end_of_line(line.skip(3 + s.len() as int), Some(value), vars);
}

/// Between double quotes a parameter expands too, and makes exactly one word: the value, or
/// the empty word where the variable is unset.
pub proof fn law_quoted_parameter_is_one_word(name: Seq<char>, vars: Variables)
    requires
        is_name(name),
    ensures
        line_words(in_double_quotes(seq!['$'] + name), vars) == seq![expansion(name, vars)],
        line_words(in_double_quotes(seq!['$'] + (seq!['{'] + name + seq!['}'])), vars) == seq![
            expansion(name, vars),
        ],
{
    lemma_bare_parameter(name, seq!['"']);
    lemma_quoted_parameter(name, name, vars);
    if name.contains('}') {
        let i = choose|i: int| 0 <= i < name.len() && name[i] == '}';
        assert(name_char(name[i]));
    }
    lemma_braced_parameter(name, seq!['"']);
    let braced = seq!['{'] + name + seq!['}'];
    assert(braced + seq!['"'] =~= seq!['{'] + name + seq!['}'] + seq!['"']);
    lemma_quoted_parameter(braced, name, vars);
}

/// What follows a `$` holds a closing brace where it begins with an opening one.
pub open spec fn closed_parameter(s: Seq<char>) -> bool {
    s.len() > 0 && s[0] == '{' ==> s.contains('}')
}

/// A line that has everything it opens closed: its single and double quotes and the braces of
/// its parameters. No backslash outside quotes ends it.
pub open spec fn closed(s: Seq<char>) -> bool
    decreases s.len(),
{
    if s.len() == 0 {
        true
    } else if s[0] == '$' {
        proof {
            lemma_parameter_len(s.skip(1));
        }
        closed_parameter(s.skip(1)) && closed(s.skip(1 + parameter(s.skip(1)).1))
    } else if s[0] == '\\' {
        s.len() > 1 && closed(s.skip(2))
    } else if s[0] == '\'' {
        proof {
            lemma_span_is_longest(s.skip(1), up_to('\''));
        }
        let k = span(s.skip(1), up_to('\''));
        k < s.len() - 1 && closed(s.skip(k + 2))
    } else if s[0] == '"' {
        closed_in_quotes(s.skip(1))
    } else {
        closed(s.skip(1))
    }
}

/// A line that is closed, where double quotes have been opened before it.
pub open spec fn closed_in_quotes(s: Seq<char>) -> bool
    decreases s.len(),
{
    if s.len() == 0 {
        false
    } else if s[0] == '"' {
        closed(s.skip(1))
    } else if s[0] == '\\' && s.len() > 1 && escapable(s[1]) {
        closed_in_quotes(s.skip(2))
    } else if s[0] == '$' {
        proof {
            lemma_parameter_len(s.skip(1));
        }
        closed_parameter(s.skip(1)) && closed_in_quotes(s.skip(1 + parameter(s.skip(1)).1))
    } else {
        closed_in_quotes(s.skip(1))
    }
}

/// White space after a parameter does not belong to it.
proof fn lemma_parameter_ends(s: Seq<char>, rest: Seq<char>)
    requires
        closed_parameter(s),
        rest.len() > 0,
        whitespace(rest[0]),
    ensures
        parameter(s + rest) == parameter(s),
{
    let all = s + rest;
    if s.len() > 0 && s[0] == '{' {
        let t = s.skip(1);
        lemma_span_is_longest(t, up_to('}'));
        let k = span(t, up_to('}'));
        if k == t.len() {
            let i = choose|i: int| 0 <= i < s.len() && s[i] == '}';
            assert(up_to('}')(t[i - 1]));
        }
        assert(all.skip(1) =~= t + rest);
        assert forall|i: int| 0 <= i < k implies up_to('}')((t + rest)[i]) by {
            assert((t + rest)[i] == t[i]);
        }
        assert((t + rest)[k] == t[k]);
        lemma_span(t + rest, up_to('}'), k);
        assert(all.subrange(1, 1 + k) =~= s.subrange(1, 1 + k));
    } else {
        lemma_span_is_longest(s, in_name());
        let k = span(s, in_name());
        assert forall|i: int| 0 <= i < k implies in_name()(all[i]) by {
            assert(all[i] == s[i]);
        }
        assert(!name_char(rest[0]));
        if k < s.len() {
            assert(all[k] == s[k]);
        } else {
            assert(all[k] == rest[0]);
        }
        lemma_span(all, in_name(), k);
        assert(all.take(k) =~= s.take(k));
        assert(s.len() == 0 ==> all[0] == rest[0]);
    }
}

/// Double quotes that are closed do not reach beyond white space after the line.
proof fn lemma_quotes_end(s: Seq<char>, rest: Seq<char>, vars: Variables)
    requires
        closed_in_quotes(s),
        rest.len() > 0,
        whitespace(rest[0]),
    ensures
        double_quoted(s + rest, vars) == double_quoted(s, vars),
        closed(s.skip(double_quoted(s, vars).1)),
    decreases s.len(),
{
    let all = s + rest;
    assert(all[0] == s[0]);
    if s[0] != '"' {
        let n = quoted_unit(s, vars).1;
        lemma_parameter_len(s.skip(1));
        if s[0] == '\\' {
            if s.len() == 1 {
                assert(!closed_in_quotes(s.skip(1)));
            }
            assert(all[1] == s[1]);
        } else if s[0] == '$' {
            assert(all.skip(1) =~= s.skip(1) + rest);
            lemma_parameter_ends(s.skip(1), rest);
        }
        assert(quoted_unit(all, vars) == quoted_unit(s, vars));
        assert(all.skip(n) =~= s.skip(n) + rest);
        lemma_quotes_end(s.skip(n), rest, vars);
        let m = double_quoted(s.skip(n), vars).1;
        lemma_double_quoted_len(s.skip(n), vars);
        assert(s.skip(n).skip(m) =~= s.skip(n + m));
    }
}

/// White space before a line makes no word.
proof fn lemma_leading_space(w: Seq<char>, b: Seq<char>, vars: Variables)
    requires
        forall|i: int| 0 <= i < w.len() ==> whitespace(#[trigger] w[i]),
    ensures
        line_words(w + b, vars) == line_words(b, vars),
    decreases w.len(),
{
    if w.len() == 0 {
        assert(w + b =~= b);
    } else {
        let s = w + b;
        assert(whitespace(w[0]) && s[0] == w[0]);
        assert(s.skip(1) =~= w.skip(1) + b);
        lemma_leading_space(w.skip(1), b, vars);
        assert(words(s, vars, None) =~= words(s.skip(1), vars, None));
    }
}

proof fn lemma_joined(
    a: Seq<char>,
    w: Seq<char>,
    b: Seq<char>,
    word: Option<Seq<char>>,
    vars: Variables,
)
    requires
        closed(a),
        w.len() > 0,
        forall|i: int| 0 <= i < w.len() ==> whitespace(#[trigger] w[i]),
    ensures
        words(a + (w + b), vars, word) == words(a, vars, word) + line_words(b, vars),
    decreases a.len(),
{
    let rest = w + b;
    let s = a + rest;
    assert(whitespace(w[0]) && rest[0] == w[0]);
    if a.len() == 0 {
        assert(s =~= rest);
        assert(rest.skip(1) =~= w.skip(1) + b);
        lemma_leading_space(w.skip(1), b, vars);
    } else if whitespace(a[0]) {
        assert(s[0] == a[0]);
        assert(s.skip(1) =~= a.skip(1) + rest);
        lemma_joined(a.skip(1), w, b, None, vars);
        let tail = words(a.skip(1), vars, None);
        assert(begun(word) + (tail + line_words(b, vars)) =~= (begun(word) + tail) + line_words(
            b,
            vars,
        ));
    } else {
        assert(s[0] == a[0]);
        assert(s.skip(1) =~= a.skip(1) + rest);
        lemma_piece_len(a, vars);
        let (t, makes_word, n) = piece(a, vars);
        if a[0] == '$' {
            lemma_parameter_ends(a.skip(1), rest);
        } else if a[0] == '\\' {
            assert(s[1] == a[1]);
        } else if a[0] == '\'' {
            let u = a.skip(1);
            lemma_span_is_longest(u, up_to('\''));
            let k = span(u, up_to('\''));
            assert forall|i: int| 0 <= i < k implies up_to('\'')((u + rest)[i]) by {
                assert((u + rest)[i] == u[i]);
            }
            assert((u + rest)[k] == u[k]);
            lemma_span(u + rest, up_to('\''), k);
            assert((u + rest).take(k) =~= u.take(k));
        } else if a[0] == '"' {
            lemma_quotes_end(a.skip(1), rest, vars);
            lemma_double_quoted_len(a.skip(1), vars);
            assert(a.skip(1).skip(n - 1) =~= a.skip(n));
        }
        assert(piece(s, vars) == piece(a, vars));
        assert(s.skip(n) =~= a.skip(n) + rest);
        let now = if makes_word {
            Some(word_text(word) + t)
        } else {
            word
        };
        lemma_joined(a.skip(n), w, b, now, vars);
    }
}

/// White space parts what stands before it from what stands after it: the words of a closed
/// line, white space and any second line are the words of the first followed by those of the
/// second.
pub proof fn law_lines_can_be_joined(
    a: Seq<char>,
    w: Seq<char>,
    b: Seq<char>,
    vars: Variables,
)
    requires
        closed(a),
        w.len() > 0,
        forall|i: int| 0 <= i < w.len() ==> whitespace(#[trigger] w[i]),
    ensures
        line_words(a + w + b, vars) == line_words(a, vars) + line_words(b, vars),
{
    assert(a + w + b =~= a + (w + b));
    lemma_joined(a, w, b, None, vars);
}

} // verus!
