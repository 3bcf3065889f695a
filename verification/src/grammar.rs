//! The lines of the shell by how they are written, and what each part of one stands for.
use crate::chars::{name_char, whitespace};
use crate::lexer::{
    begun, double_quoted, expansion, in_name, line_words, parameter, piece, quoted_unit, word_text,
    words, Variables,
};
use crate::text::{lemma_span, up_to};
use vstd::prelude::*;

verus! {

/// A `$` and what belongs to it.
pub enum Parameter {
    /// `$` and a name.
    Bare(Seq<char>),
    /// `$` and a name in braces.
    Braced(Seq<char>),
    /// A `$` alone.
    Dollar,
}

/// A part of a text between double quotes.
pub enum Unit {
    /// A character that stands for itself.
    Plain(char),
    /// A backslash and the character that it escapes.
    Escape(char),
    /// A backslash that escapes nothing.
    Backslash,
    /// A parameter.
    Expand(Parameter),
}

/// A part of a word.
pub enum Part {
    /// A character that stands for itself.
    Plain(char),
    /// A backslash and the character that it escapes.
    Escape(char),
    /// A text between single quotes.
    Single(Seq<char>),
    /// A text between double quotes.
    Double(Seq<Unit>),
    /// A parameter.
    Expand(Parameter),
}

/// How a line ends, after its last part.
pub enum End {
    /// With white space, or at once.
    Space(Seq<char>),
    /// With a backslash.
    Backslash,
    /// With a single quote that is not closed, and a text.
    Single(Seq<char>),
    /// With a `$` and a brace that is not closed, and a text.
    Brace(Seq<char>),
    /// With a double quote that is not closed, and a text.
    Double(Seq<Unit>),
    /// With a double quote that is not closed, a text, and then a `$` and a brace that is not
    /// closed, and a text.
    DoubleBrace(Seq<Unit>, Seq<char>),
}

/// White space, and the parts that follow each other after it.
pub struct Field {
    /// The white space.
    pub gap: Seq<char>,
    /// The parts.
    pub parts: Seq<Part>,
}

/// One of the four characters that a backslash escapes between double quotes.
pub open spec fn special(c: char) -> bool {
    c == '"' || c == '\\' || c == '$' || c == '`'
}

/// The value of the variable, nothing where it is not set.
pub open spec fn value_of(name: Seq<char>, vars: Variables) -> Seq<char> {
    if vars.dom().contains(name) {
        vars[name]
    } else {
        seq![]
    }
}

/// What a name in braces stands for: the value of the variable, and `$` where it is empty.
pub open spec fn braced_value(name: Seq<char>, vars: Variables) -> Seq<char> {
    if name.len() == 0 {
        seq!['$']
    } else {
        value_of(name, vars)
    }
}

impl Parameter {
    /// How it is written.
    pub open spec fn written(self) -> Seq<char> {
        match self {
            Parameter::Bare(name) => seq!['$'] + name,
            Parameter::Braced(name) => seq!['$', '{'] + name + seq!['}'],
            Parameter::Dollar => seq!['$'],
        }
    }

    /// What it stands for.
    pub open spec fn value(self, vars: Variables) -> Seq<char> {
        match self {
            Parameter::Bare(name) => value_of(name, vars),
            Parameter::Braced(name) => braced_value(name, vars),
            Parameter::Dollar => seq!['$'],
        }
    }

    /// It is one, with `next` after it: a name without braces ends where a character comes that
    /// cannot stand in one.
    pub open spec fn fits(self, next: Seq<char>) -> bool {
        match self {
            Parameter::Bare(name) => {
                &&& name.len() > 0
                &&& forall|i: int| 0 <= i < name.len() ==> name_char(#[trigger] name[i])
                &&& next.len() > 0 ==> !name_char(next[0])
            },
            Parameter::Braced(name) => !name.contains('}'),
            Parameter::Dollar => next.len() > 0 ==> next[0] != '{' && !name_char(next[0]),
        }
    }
}

impl Unit {
    /// How it is written.
    pub open spec fn written(self) -> Seq<char> {
        match self {
            Unit::Plain(c) => seq![c],
            Unit::Escape(c) => seq!['\\', c],
            Unit::Backslash => seq!['\\'],
            Unit::Expand(p) => p.written(),
        }
    }

    /// What it stands for.
    pub open spec fn value(self, vars: Variables) -> Seq<char> {
        match self {
            Unit::Plain(c) => seq![c],
            Unit::Escape(c) => seq![c],
            Unit::Backslash => seq!['\\'],
            Unit::Expand(p) => p.value(vars),
        }
    }

    /// It is one, with `next` after it.
    pub open spec fn fits(self, next: Seq<char>) -> bool {
        match self {
            Unit::Plain(c) => c != '"' && c != '\\' && c != '$',
            Unit::Escape(c) => special(c),
            Unit::Backslash => next.len() > 0 ==> !special(next[0]),
            Unit::Expand(p) => p.fits(next),
        }
    }
}

/// How a text between double quotes is written.
pub open spec fn units_written(us: Seq<Unit>) -> Seq<char>
    decreases us.len(),
{
    if us.len() == 0 {
        seq![]
    } else {
        us[0].written() + units_written(us.skip(1))
    }
}

/// What a text between double quotes stands for: what its parts stand for, one after the other.
pub open spec fn units_value(us: Seq<Unit>, vars: Variables) -> Seq<char>
    decreases us.len(),
{
    if us.len() == 0 {
        seq![]
    } else {
        us[0].value(vars) + units_value(us.skip(1), vars)
    }
}

/// Each part of a text between double quotes is one, with `next` after them.
pub open spec fn units_fit(us: Seq<Unit>, next: Seq<char>) -> bool
    decreases us.len(),
{
    us.len() > 0 ==> us[0].fits(units_written(us.skip(1)) + next) && units_fit(us.skip(1), next)
}

impl Part {
    /// How it is written.
    pub open spec fn written(self) -> Seq<char> {
        match self {
            Part::Plain(c) => seq![c],
            Part::Escape(c) => seq!['\\', c],
            Part::Single(w) => seq!['\''] + w + seq!['\''],
            Part::Double(us) => seq!['"'] + units_written(us) + seq!['"'],
            Part::Expand(p) => p.written(),
        }
    }

    /// What it stands for.
    pub open spec fn value(self, vars: Variables) -> Seq<char> {
        match self {
            Part::Plain(c) => seq![c],
            Part::Escape(c) => seq![c],
            Part::Single(w) => w,
            Part::Double(us) => units_value(us, vars),
            Part::Expand(p) => p.value(vars),
        }
    }

    /// There is a word because of it: an expansion to nothing makes none.
    pub open spec fn makes_word(self, vars: Variables) -> bool {
        self is Expand ==> self.value(vars).len() > 0
    }

    /// It is one, with `next` after it.
    pub open spec fn fits(self, next: Seq<char>) -> bool {
        match self {
            Part::Plain(c) => !whitespace(c) && c != '$' && c != '\\' && c != '\'' && c != '"',
            Part::Escape(c) => true,
            Part::Single(w) => !w.contains('\''),
            Part::Double(us) => units_fit(us, seq!['"'] + next),
            Part::Expand(p) => p.fits(next),
        }
    }
}

/// How parts that follow each other are written.
pub open spec fn parts_written(ps: Seq<Part>) -> Seq<char>
    decreases ps.len(),
{
    if ps.len() == 0 {
        seq![]
    } else {
        ps[0].written() + parts_written(ps.skip(1))
    }
}

/// What parts that follow each other stand for, one after the other.
pub open spec fn parts_value(ps: Seq<Part>, vars: Variables) -> Seq<char>
    decreases ps.len(),
{
    if ps.len() == 0 {
        seq![]
    } else {
        ps[0].value(vars) + parts_value(ps.skip(1), vars)
    }
}

/// Some part makes a word.
pub open spec fn parts_make_word(ps: Seq<Part>, vars: Variables) -> bool {
    exists|i: int| 0 <= i < ps.len() && (#[trigger] ps[i]).makes_word(vars)
}

/// Each part is one, with `next` after them.
pub open spec fn parts_fit(ps: Seq<Part>, next: Seq<char>) -> bool
    decreases ps.len(),
{
    ps.len() > 0 ==> ps[0].fits(parts_written(ps.skip(1)) + next) && parts_fit(ps.skip(1), next)
}

impl End {
    /// How it is written.
    pub open spec fn written(self) -> Seq<char> {
        match self {
            End::Space(w) => w,
            End::Backslash => seq!['\\'],
            End::Single(w) => seq!['\''] + w,
            End::Brace(name) => seq!['$', '{'] + name,
            End::Double(us) => seq!['"'] + units_written(us),
            End::DoubleBrace(us, name) => seq!['"'] + units_written(us) + (seq!['$', '{'] + name),
        }
    }

    /// What it stands for.
    pub open spec fn value(self, vars: Variables) -> Seq<char> {
        match self {
            End::Space(w) => seq![],
            End::Backslash => seq![],
            End::Single(w) => w,
            End::Brace(name) => braced_value(name, vars),
            End::Double(us) => units_value(us, vars),
            End::DoubleBrace(us, name) => units_value(us, vars) + braced_value(name, vars),
        }
    }

    /// There is a word because of it.
    pub open spec fn makes_word(self, vars: Variables) -> bool {
        match self {
            End::Space(w) => false,
            End::Backslash => false,
            End::Single(w) => true,
            End::Brace(name) => braced_value(name, vars).len() > 0,
            End::Double(us) => true,
            End::DoubleBrace(us, name) => true,
        }
    }

    /// It is one.
    pub open spec fn fits(self) -> bool {
        match self {
            End::Space(w) => all_space(w),
            End::Backslash => true,
            End::Single(w) => !w.contains('\''),
            End::Brace(name) => !name.contains('}'),
            End::Double(us) => units_fit(us, seq![]),
            End::DoubleBrace(us, name) => {
                units_fit(us, seq!['$', '{'] + name) && !name.contains('}')
            },
        }
    }
}

/// White space alone.
pub open spec fn all_space(w: Seq<char>) -> bool {
    forall|i: int| 0 <= i < w.len() ==> whitespace(#[trigger] w[i])
}

/// How the fields of a line and its end are written.
pub open spec fn line_written(fields: Seq<Field>, end: End) -> Seq<char>
    decreases fields.len(),
{
    if fields.len() == 0 {
        end.written()
    } else {
        fields[0].gap + (parts_written(fields[0].parts) + line_written(fields.skip(1), end))
    }
}

/// Each part of the line is one, and white space stands between each two fields.
pub open spec fn line_fits(fields: Seq<Field>, end: End) -> bool
    decreases fields.len(),
{
    if fields.len() == 0 {
        end.fits()
    } else {
        &&& all_space(fields[0].gap)
        &&& parts_fit(fields[0].parts, line_written(fields.skip(1), end))
        &&& fields.len() > 1 ==> fields[1].gap.len() > 0
        &&& line_fits(fields.skip(1), end)
    }
}

/// A word of this text, where there is a word.
pub open spec fn one_word(there: bool, text: Seq<char>) -> Seq<Seq<char>> {
    if there {
        seq![text]
    } else {
        seq![]
    }
}

/// The words of a line: the parts of a field make one, with the end of the line for the last.
pub open spec fn line_value(fields: Seq<Field>, end: End, vars: Variables) -> Seq<Seq<char>>
    decreases fields.len(),
{
    let ps = fields[0].parts;
    if fields.len() <= 1 {
        one_word(
            parts_make_word(ps, vars) || end.makes_word(vars),
            parts_value(ps, vars) + end.value(vars),
        )
    } else {
        one_word(parts_make_word(ps, vars), parts_value(ps, vars)) + line_value(
            fields.skip(1),
            end,
            vars,
        )
    }
}

proof fn lemma_parameter(p: Parameter, next: Seq<char>, vars: Variables)
    requires
        p.fits(next),
    ensures
        ({
            let s = p.written() + next;
            let (name, k) = parameter(s.skip(1));
            &&& s[0] == '$'
            &&& 1 + k == p.written().len()
            &&& expansion(name, vars) == p.value(vars)
        }),
{
    let s = p.written() + next;
    let t = s.skip(1);
    match p {
        Parameter::Bare(name) => {
            assert(t =~= name + next);
            assert(name_char(name[0]) && t[0] == name[0]);
            assert forall|i: int| 0 <= i < name.len() implies in_name()(t[i]) by {
                assert(t[i] == name[i]);
            }
            lemma_span(t, in_name(), name.len() as int);
            assert(t.take(name.len() as int) =~= name);
        },
        Parameter::Braced(name) => {
            lemma_braced(name, seq!['}'] + next);
            assert(t =~= seq!['{'] + name + (seq!['}'] + next));
        },
        Parameter::Dollar => {
            assert(t =~= next);
            lemma_span(t, in_name(), 0);
            assert(t.take(0) =~= seq![]);
        },
    }
}

proof fn lemma_braced(name: Seq<char>, rest: Seq<char>)
    requires
        !name.contains('}'),
        rest.len() > 0 ==> rest[0] == '}',
    ensures
        parameter(seq!['{'] + name + rest) == (name, name.len() as int + (if rest.len() > 0 {
            2int
        } else {
            1int
        })),
{
    let s = seq!['{'] + name + rest;
    let t = s.skip(1);
    assert(t =~= name + rest);
    assert forall|i: int| 0 <= i < name.len() implies up_to('}')(t[i]) by {
        assert(t[i] == name[i]);
        assert(name.contains(name[i]));
    }
    lemma_span(t, up_to('}'), name.len() as int);
    assert(s.subrange(1, 1 + name.len() as int) =~= name);
}

proof fn lemma_units(us: Seq<Unit>, next: Seq<char>, vars: Variables)
    requires
        units_fit(us, next),
    ensures
        ({
            let (t, k) = double_quoted(next, vars);
            double_quoted(units_written(us) + next, vars) == (
                units_value(us, vars) + t,
                units_written(us).len() + k,
            )
        }),
    decreases us.len(),
{
    let (t, k) = double_quoted(next, vars);
    if us.len() == 0 {
        assert(units_written(us) + next =~= next);
        assert(units_value(us, vars) + t =~= t);
    } else {
        let u = us[0];
        let after = units_written(us.skip(1)) + next;
        let s = units_written(us) + next;
        assert(s =~= u.written() + after);
        lemma_units(us.skip(1), next, vars);
        if let Unit::Expand(p) = u {
            lemma_parameter(p, after, vars);
        }
        let n = u.written().len() as int;
        assert(s[0] == u.written()[0]);
        match u {
            Unit::Escape(c) => {
                assert(s[1] == c);
            },
            Unit::Backslash => {
                assert(s.len() > 1 ==> s[1] == after[0]);
            },
            _ => {},
        }
        assert(quoted_unit(s, vars) == (u.value(vars), n));
        assert(s[0] != '"');
        assert(s.skip(n) =~= after);
        assert(u.value(vars) + (units_value(us.skip(1), vars) + t) =~= units_value(us, vars) + t);
    }
}

/// What has been begun of a word, with a part added to it.
spec fn with_part(word: Option<Seq<char>>, makes: bool, text: Seq<char>) -> Option<Seq<char>> {
    if makes {
        Some(word_text(word) + text)
    } else {
        word
    }
}

proof fn lemma_part(p: Part, next: Seq<char>, vars: Variables)
    requires
        p.fits(next),
    ensures
        ({
            let s = p.written() + next;
            &&& !whitespace(s[0])
            &&& piece(s, vars) == (p.value(vars), p.makes_word(vars), p.written().len() as int)
            &&& p.written().len() > 0
        }),
{
    let s = p.written() + next;
    match p {
        Part::Plain(c) => {
            assert(s[0] == c);
        },
        Part::Escape(c) => {
            assert(s[0] == '\\' && s[1] == c);
        },
        Part::Single(w) => {
            let t = s.skip(1);
            assert(s[0] == '\'');
            assert(t =~= w + seq!['\''] + next);
            assert forall|i: int| 0 <= i < w.len() implies up_to('\'')(t[i]) by {
                assert(t[i] == w[i]);
                assert(w.contains(w[i]));
            }
            assert(t[w.len() as int] == '\'');
            lemma_span(t, up_to('\''), w.len() as int);
            assert(t.take(w.len() as int) =~= w);
        },
        Part::Double(us) => {
            assert(s[0] == '"');
            let after = seq!['"'] + next;
            assert(s.skip(1) =~= units_written(us) + after);
            lemma_units(us, after, vars);
            assert(double_quoted(after, vars) == (Seq::<char>::empty(), 1int));
            assert(units_value(us, vars) + Seq::<char>::empty() =~= units_value(us, vars));
        },
        Part::Expand(q) => {
            lemma_parameter(q, next, vars);
        },
    }
}

proof fn lemma_parts(
    ps: Seq<Part>,
    next: Seq<char>,
    word: Option<Seq<char>>,
    vars: Variables,
)
    requires
        parts_fit(ps, next),
    ensures
        words(parts_written(ps) + next, vars, word) == words(
            next,
            vars,
            with_part(word, parts_make_word(ps, vars), parts_value(ps, vars)),
        ),
    decreases ps.len(),
{
    if ps.len() == 0 {
        assert(parts_written(ps) + next =~= next);
    } else {
        let p = ps[0];
        let rest = ps.skip(1);
        let after = parts_written(rest) + next;
        let s = parts_written(ps) + next;
        let n = p.written().len() as int;
        assert(s =~= p.written() + after);
        lemma_part(p, after, vars);
        assert(s.skip(n) =~= after);
        let now = with_part(word, p.makes_word(vars), p.value(vars));
        lemma_parts(rest, next, now, vars);
        lemma_values_of_no_word(rest, vars);
        assert(parts_make_word(ps, vars) == (p.makes_word(vars) || parts_make_word(rest, vars)))
            by {
            if parts_make_word(ps, vars) {
                let i = choose|i: int| 0 <= i < ps.len() && (#[trigger] ps[i]).makes_word(vars);
                if i > 0 {
                    assert(rest[i - 1].makes_word(vars));
                }
            }
            if parts_make_word(rest, vars) {
                let i = choose|i: int| 0 <= i < rest.len() && (#[trigger] rest[i]).makes_word(vars);
                assert(ps[i + 1].makes_word(vars));
            }
            if p.makes_word(vars) {
                assert(ps[0].makes_word(vars));
            }
        }
        assert(!p.makes_word(vars) ==> p.value(vars) =~= seq![]);
        let a = word_text(word);
        assert(a + p.value(vars) + parts_value(rest, vars) =~= a + parts_value(ps, vars));
        assert(!parts_make_word(rest, vars) ==> a + p.value(vars) =~= a + parts_value(ps, vars));
        assert(!p.makes_word(vars) ==> a + parts_value(rest, vars) =~= a + parts_value(ps, vars));
    }
}

/// Parts of which none makes a word stand for nothing.
proof fn lemma_values_of_no_word(ps: Seq<Part>, vars: Variables)
    ensures
        !parts_make_word(ps, vars) ==> parts_value(ps, vars).len() == 0,
    decreases ps.len(),
{
    if ps.len() > 0 && !parts_make_word(ps, vars) {
        let rest = ps.skip(1);
        assert(!ps[0].makes_word(vars));
        if parts_make_word(rest, vars) {
            let i = choose|i: int| 0 <= i < rest.len() && (#[trigger] rest[i]).makes_word(vars);
            assert(ps[i + 1].makes_word(vars));
        }
        lemma_values_of_no_word(rest, vars);
    }
}

proof fn lemma_space(w: Seq<char>, next: Seq<char>, vars: Variables)
    requires
        all_space(w),
    ensures
        words(w + next, vars, None) == words(next, vars, None),
    decreases w.len(),
{
    if w.len() == 0 {
        assert(w + next =~= next);
    } else {
        let s = w + next;
        assert(whitespace(w[0]) && s[0] == w[0]);
        assert(s.skip(1) =~= w.skip(1) + next);
        lemma_space(w.skip(1), next, vars);
        assert(words(s, vars, None) =~= words(s.skip(1), vars, None));
    }
}

proof fn lemma_gap(w: Seq<char>, next: Seq<char>, word: Option<Seq<char>>, vars: Variables)
    requires
        all_space(w),
        w.len() > 0,
    ensures
        words(w + next, vars, word) == begun(word) + words(next, vars, None),
{
    let s = w + next;
    assert(whitespace(w[0]) && s[0] == w[0]);
    assert(s.skip(1) =~= w.skip(1) + next);
    lemma_space(w.skip(1), next, vars);
}

proof fn lemma_no_more(s: Seq<char>, word: Option<Seq<char>>, vars: Variables)
    requires
        s.len() == 0,
    ensures
        words(s, vars, word) == begun(word),
{
}

proof fn lemma_end(end: End, word: Option<Seq<char>>, vars: Variables)
    requires
        end.fits(),
    ensures
        words(end.written(), vars, word) == begun(
            with_part(word, end.makes_word(vars), end.value(vars)),
        ),
{
    let s = end.written();
    let none = Seq::<char>::empty();
    if let End::Space(w) = end {
        if w.len() > 0 {
            lemma_gap(w, none, word, vars);
            assert(w + none =~= s);
            lemma_no_more(none, None, vars);
            assert(begun(word) + begun(None) =~= begun(word));
        }
    } else {
        assert(s.len() > 0 && !whitespace(s[0]));
        match end {
            End::Single(w) => {
                let t = s.skip(1);
                assert(t =~= w);
                assert forall|i: int| 0 <= i < w.len() implies up_to('\'')(t[i]) by {
                    assert(w.contains(w[i]));
                }
                lemma_span(t, up_to('\''), w.len() as int);
                assert(t.take(w.len() as int) =~= w);
            },
            End::Brace(name) => {
                lemma_braced(name, none);
                assert(s.skip(1) =~= seq!['{'] + name + none);
            },
            End::Double(us) => {
                assert(s.skip(1) =~= units_written(us) + none);
                lemma_units(us, none, vars);
                assert(double_quoted(none, vars) == (none, 0int));
                assert(units_value(us, vars) + none =~= units_value(us, vars));
            },
            End::DoubleBrace(us, name) => {
                let next = seq!['$', '{'] + name;
                assert(s.skip(1) =~= units_written(us) + next);
                lemma_units(us, next, vars);
                lemma_braced(name, none);
                assert(next.skip(1) =~= seq!['{'] + name + none);
                let n = next.len() as int;
                assert(quoted_unit(next, vars) == (braced_value(name, vars), n));
                assert(double_quoted(next.skip(n), vars) == (none, 0int));
                assert(braced_value(name, vars) + none =~= braced_value(name, vars));
                assert(double_quoted(next, vars) == (braced_value(name, vars), n));
            },
            _ => {},
        }
        assert(piece(s, vars) == (end.value(vars), end.makes_word(vars), s.len() as int));
        lemma_no_more(
            s.skip(s.len() as int),
            with_part(word, end.makes_word(vars), end.value(vars)),
            vars,
        );
    }
}

/// What a line reads as, by how it is written. White space parts it into fields, and the parts
/// of a field make one word: characters, escaped characters, quoted texts and parameters, each
/// with what it stands for alone, one after the other. Only parameters that stand for nothing
/// make no word. Between double quotes the units stand for themselves, escaped characters and
/// parameters in the same way, whatever follows them. What is left open ends with the line.
pub proof fn law_a_line_reads_as_it_is_written(fields: Seq<Field>, end: End, vars: Variables)
    requires
        fields.len() > 0,
        line_fits(fields, end),
    ensures
        line_words(line_written(fields, end), vars) == line_value(fields, end, vars),
    decreases fields.len(),
{
    reveal_with_fuel(line_fits, 2);
    reveal_with_fuel(line_written, 2);
    let f = fields[0];
    let rest = fields.skip(1);
    let after = line_written(rest, end);
    let word = with_part(None, parts_make_word(f.parts, vars), parts_value(f.parts, vars));
    lemma_space(f.gap, parts_written(f.parts) + after, vars);
    lemma_parts(f.parts, after, None, vars);
    assert(Seq::<char>::empty() + parts_value(f.parts, vars) =~= parts_value(f.parts, vars));
    lemma_values_of_no_word(f.parts, vars);
    if fields.len() == 1 {
        lemma_end(end, word, vars);
        let (a, b) = (parts_value(f.parts, vars), end.value(vars));
        assert(!parts_make_word(f.parts, vars) ==> a + b =~= Seq::<char>::empty() + b);
        lemma_end_of_no_word(end, vars);
        assert(!end.makes_word(vars) ==> a + b =~= a);
    } else {
        law_a_line_reads_as_it_is_written(rest, end, vars);
        let g = rest[0].gap;
        let tail = parts_written(rest[0].parts) + line_written(rest.skip(1), end);
        assert(g == fields[1].gap);
        assert(after == g + tail);
        lemma_gap(g, tail, word, vars);
        lemma_space(g, tail, vars);
    }
}

proof fn lemma_end_of_no_word(end: End, vars: Variables)
    ensures
        !end.makes_word(vars) ==> end.value(vars).len() == 0,
{
}

} // verus!
