//! What is to be completed: the word before the cursor, and where its candidates come from.
use crate::chars::whitespace;
use crate::numbers::{decimal, decimal_of};
use crate::table::Table;
use crate::text::{
    after_last, chars_of, find_after_last, lemma_after_last, lemma_span, span, string_of,
};
use vstd::prelude::*;
use vstd::string::*;
use vstd::utf8::*;

verus! {

/// What is to be completed.
pub enum Request {
    /// The first word of the line: the name of a command.
    Command {
        /// What of it is there.
        prefix: String,
    },
    /// A later word, for a command that has a completion script.
    Script {
        /// The script.
        script: String,
        /// Its first argument: the command.
        command: String,
        /// Its second argument: what of the word is there.
        word: String,
        /// Its third argument: the word before.
        previous: String,
        /// Its variable `COMP_LINE`: the line.
        line: String,
        /// Its variable `COMP_POINT`: where the cursor is.
        point: String,
    },
    /// A later word, for any other command: the name of a file.
    Filename {
        /// What of it is there.
        word: String,
    },
}

/// The content of a `Request`.
pub enum RequestView {
    /// The name of a command.
    Command {
        /// What of it is there.
        prefix: Seq<char>,
    },
    /// What a completion script is asked.
    Script {
        /// The script.
        script: Seq<char>,
        /// The command.
        command: Seq<char>,
        /// What of the word is there.
        word: Seq<char>,
        /// The word before.
        previous: Seq<char>,
        /// The line.
        line: Seq<char>,
        /// Where the cursor is.
        point: Seq<char>,
    },
    /// The name of a file.
    Filename {
        /// What of it is there.
        word: Seq<char>,
    },
}

impl View for Request {
    type V = RequestView;

    open spec fn view(&self) -> RequestView {
        match *self {
            Request::Command { prefix } => RequestView::Command { prefix: prefix@ },
            Request::Script { script, command, word, previous, line, point } => {
                RequestView::Script {
                    script: script@,
                    command: command@,
                    word: word@,
                    previous: previous@,
                    line: line@,
                    point: point@,
                }
            },
            Request::Filename { word } => RequestView::Filename { word: word@ },
        }
    }
}

/// White space.
pub open spec fn in_space() -> spec_fn(char) -> bool {
    |c: char| whitespace(c)
}

/// Anything but white space.
pub open spec fn in_word() -> spec_fn(char) -> bool {
    |c: char| !whitespace(c)
}

/// The first word of a text that is split at white space, empty where there is none.
pub open spec fn first_word(s: Seq<char>) -> Seq<char> {
    let t = s.skip(span(s, in_space()));
    t.take(span(t, in_word()))
}

/// The last word of a text that is split at white space, empty where there is none.
pub open spec fn last_word(s: Seq<char>) -> Seq<char>
    decreases s.len(),
{
    if s.len() == 0 {
        seq![]
    } else if whitespace(s.last()) {
        last_word(s.drop_last())
    } else {
        ending_word(s)
    }
}

/// The longest end of a text without white space.
pub open spec fn ending_word(s: Seq<char>) -> Seq<char>
    decreases s.len(),
{
    if s.len() == 0 || whitespace(s.last()) {
        seq![]
    } else {
        ending_word(s.drop_last()).push(s.last())
    }
}

/// What of the line stands before the cursor, which is given in bytes.
pub open spec fn before_cursor(line: Seq<char>, pos: int) -> Seq<char> {
    decode_utf8(encode_utf8(line).subrange(0, pos))
}

/// Where the word before the cursor starts: after the last blank, counted in characters.
pub open spec fn word_index(line: Seq<char>, pos: int) -> int {
    after_last(before_cursor(line, pos), ' ')
}

/// Where the word before the cursor starts, counted in bytes.
pub open spec fn word_offset(line: Seq<char>, pos: int) -> int {
    encode_utf8(before_cursor(line, pos).take(word_index(line, pos))).len() as int
}

/// What is to be completed at `pos`: the first word as a command, a later one with the script
/// of the command where it has one, and as a file otherwise.
pub open spec fn request(
    line: Seq<char>,
    pos: int,
    scripts: Map<Seq<char>, Seq<char>>,
) -> RequestView {
    let head = before_cursor(line, pos);
    let k = word_index(line, pos);
    let command = first_word(line);
    if k == 0 {
        RequestView::Command { prefix: head }
    } else if scripts.contains_key(command) {
        RequestView::Script {
            script: scripts[command],
            command,
            word: head.skip(k),
            previous: last_word(head.take(k)),
            line,
            point: decimal(pos as nat),
        }
    } else {
        RequestView::Filename { word: head.skip(k) }
    }
}

proof fn lemma_encode_concat(a: Seq<char>, b: Seq<char>)
    ensures
        encode_utf8(a + b) == encode_utf8(a) + encode_utf8(b),
    decreases a.len(),
{
    if a.len() == 0 {
        assert(a + b =~= b);
        assert(encode_utf8(a) + encode_utf8(b) =~= encode_utf8(b));
    } else {
        assert((a + b).drop_first() =~= a.drop_first() + b);
        lemma_encode_concat(a.drop_first(), b);
        assert(encode_utf8(a + b) =~= encode_utf8(a) + encode_utf8(b));
    }
}

/// The first word of a text that is split at white space.
fn find_first_word(s: &str) -> (r: String)
    ensures
        r@ == first_word(s@),
{
    let chars = chars_of(s);
    let mut from: usize = 0;
    while from < chars.len() && chars[from].is_whitespace()
        invariant
            from <= chars@.len(),
            chars@ == s@,
            forall|j: int| 0 <= j < from ==> in_space()(s@[j]),
        decreases chars@.len() - from,
    {
        assert(in_space()(s@[from as int]));
        from = from + 1;
    }
    proof {
        lemma_span(s@, in_space(), from as int);
    }
    let ghost t = s@.skip(from as int);
    let mut to: usize = from;
    while to < chars.len() && !chars[to].is_whitespace()
        invariant
            from <= to <= chars@.len(),
            chars@ == s@,
            t == s@.skip(from as int),
            forall|j: int| 0 <= j < to - from ==> in_word()(t[j]),
        decreases chars@.len() - to,
    {
        assert(in_word()(t[to - from]));
        to = to + 1;
    }
    proof {
        lemma_span(t, in_word(), to - from);
    }
    let r = string_of(&chars, from, to);
    assert(r@ =~= first_word(s@));
    r
}

/// The last word of the first `end` characters, which are split at white space.
fn find_last_word(chars: &Vec<char>, end: usize) -> (r: String)
    requires
        end <= chars@.len(),
    ensures
        r@ == last_word(chars@.take(end as int)),
{
    let mut to: usize = end;
    while to > 0 && chars[to - 1].is_whitespace()
        invariant
            to <= end <= chars@.len(),
            last_word(chars@.take(to as int)) == last_word(chars@.take(end as int)),
        decreases to,
    {
        assert(chars@.take(to as int).drop_last() =~= chars@.take(to - 1));
        to = to - 1;
    }
    let mut from: usize = to;
    let ghost whole = ending_word(chars@.take(to as int));
    assert(whole =~= ending_word(chars@.take(from as int)) + chars@.subrange(
        from as int,
        to as int,
    ));
    while from > 0 && !chars[from - 1].is_whitespace()
        invariant
            from <= to <= chars@.len(),
            whole == ending_word(chars@.take(from as int)) + chars@.subrange(
                from as int,
                to as int,
            ),
        decreases from,
    {
        let ghost t = chars@.take(from as int);
        assert(t.drop_last() =~= chars@.take(from - 1));
        assert(whole =~= ending_word(t.drop_last()) + chars@.subrange(from - 1, to as int));
        from = from - 1;
    }
    assert(ending_word(chars@.take(from as int)) =~= seq![]);
    let r = string_of(chars, from, to);
    assert(r@ =~= whole);
    assert(to == 0 ==> last_word(chars@.take(0)) =~= seq![]);
    r
}

/// What is to be completed at `pos`, a position in bytes, and where the word starts that the
/// candidates replace.
pub fn completion_request(line: &str, pos: usize, scripts: &Table) -> (r: (usize, Request))
    requires
        is_char_boundary(encode_utf8(line@), pos as int),
    ensures
        r.0 == word_offset(line@, pos as int),
        r.1@ == request(line@, pos as int, scripts@),
{
    let head_text = line.split_at(pos).0;
    let ghost head = before_cursor(line@, pos as int);
    proof {
        encode_utf8_decode_utf8(head_text@);
    }
    assert(head_text@ == head);
    let chars = chars_of(head_text);
    let k: usize = find_after_last(&chars, ' ');
    let kept = string_of(&chars, 0, k);
    proof {
        assert(head.take(k as int) =~= kept@);
        assert(head =~= head.take(k as int) + head.skip(k as int));
        lemma_encode_concat(head.take(k as int), head.skip(k as int));
        encode_utf8_valid_utf8(line@);
        lemma_boundary_in_range(encode_utf8(line@), pos as int);
    }
    let offset: usize = kept.as_str().len();
    let word = string_of(&chars, k, chars.len());
    assert(word@ =~= head.skip(k as int));
    if k == 0 {
        assert(head.skip(0) =~= head);
        return (offset, Request::Command { prefix: word });
    }
    let command = find_first_word(line);
    match scripts.get(command.as_str()) {
        Some(script) => {
            let previous = find_last_word(&chars, k);
            let r = Request::Script {
                script: script.clone(),
                command,
                word,
                previous,
                line: line.to_owned(),
                point: decimal_of(pos as u64),
            };
            (offset, r)
        },
        None => (offset, Request::Filename { word }),
    }
}

proof fn lemma_boundary_in_range(bytes: Seq<u8>, index: int)
    requires
        valid_utf8(bytes),
        is_char_boundary(bytes, index),
    ensures
        0 <= index <= bytes.len(),
{
}

/// The candidates replace exactly the word before the cursor: its bytes stand between where
/// it starts and the cursor, and it holds no blank.
pub proof fn law_word_reaches_the_cursor(line: Seq<char>, pos: int)
    requires
        is_char_boundary(encode_utf8(line), pos),
    ensures
        ({
            let word = before_cursor(line, pos).skip(word_index(line, pos));
            let start = word_offset(line, pos);
            &&& 0 <= start <= pos <= encode_utf8(line).len()
            &&& encode_utf8(line).subrange(start, pos) == encode_utf8(word)
            &&& !word.contains(' ')
        }),
{
    let bytes = encode_utf8(line);
    let head = before_cursor(line, pos);
    let k = word_index(line, pos);
    let word = head.skip(k);
    encode_utf8_valid_utf8(line);
    lemma_boundary_in_range(bytes, pos);
    valid_utf8_split(bytes, pos);
    decode_utf8_encode_utf8(bytes.subrange(0, pos));
    lemma_after_last(head, ' ');
    lemma_encode_concat(head.take(k), word);
    assert(head =~= head.take(k) + word);
    let start = word_offset(line, pos);
    assert(bytes.subrange(start, pos) =~= encode_utf8(word)) by {
        assert(bytes.subrange(0, pos) == encode_utf8(head.take(k)) + encode_utf8(word));
        assert forall|i: int| 0 <= i < pos - start implies bytes[start + i] == encode_utf8(
            word,
        )[i] by {
            assert(bytes.subrange(0, pos)[start + i] == bytes[start + i]);
        }
    }
}

/// Neither end of the text is white space, and none stands in it.
pub open spec fn is_word(w: Seq<char>) -> bool {
    w.len() > 0 && forall|i: int| 0 <= i < w.len() ==> !whitespace(#[trigger] w[i])
}

/// White space alone, or nothing.
pub open spec fn is_space(w: Seq<char>) -> bool {
    forall|i: int| 0 <= i < w.len() ==> whitespace(#[trigger] w[i])
}

/// The first word of a text is the first that white space parts off, whatever follows it.
pub proof fn law_first_word(space: Seq<char>, word: Seq<char>, rest: Seq<char>)
    requires
        is_space(space),
        is_word(word),
        rest.len() > 0 ==> whitespace(rest[0]),
    ensures
        first_word(space + word + rest) == word,
        first_word(space) == Seq::<char>::empty(),
{
    let s = space + word + rest;
    let n = space.len() as int;
    assert forall|i: int| 0 <= i < n implies in_space()(s[i]) && in_space()(space[i]) by {
        assert(s[i] == space[i]);
    }
    assert(s[n] == word[0]);
    lemma_span(s, in_space(), n);
    let t = s.skip(n);
    assert(t =~= word + rest);
    let m = word.len() as int;
    assert forall|i: int| 0 <= i < m implies in_word()(t[i]) by {
        assert(t[i] == word[i]);
    }
    assert(m < t.len() ==> t[m] == rest[0]);
    lemma_span(t, in_word(), m);
    assert(t.take(m) =~= word);
    lemma_span(space, in_space(), n);
    let none = space.skip(n);
    lemma_span(none, in_word(), 0);
    assert(first_word(space) =~= seq![]);
}

/// The last word of a text is the last that white space parts off, whatever stands before it.
pub proof fn law_last_word(rest: Seq<char>, word: Seq<char>, space: Seq<char>)
    requires
        is_space(space),
        is_word(word),
        rest.len() > 0 ==> whitespace(rest.last()),
    ensures
        last_word(rest + word + space) == word,
        last_word(space) == Seq::<char>::empty(),
    decreases space.len(),
{
    let s = rest + word + space;
    if space.len() > 0 {
        assert(whitespace(space[space.len() - 1]));
        assert forall|i: int| 0 <= i < space.drop_last().len() implies whitespace(
            #[trigger] space.drop_last()[i],
        ) by {
            assert(space.drop_last()[i] == space[i]);
        }
        law_last_word(rest, word, space.drop_last());
        assert(s.last() == space.last());
        assert(s.drop_last() =~= rest + word + space.drop_last());
    } else {
        assert(s =~= rest + word);
        assert(s.last() == word[word.len() - 1]);
        lemma_ending_word(rest, word);
    }
}

proof fn lemma_ending_word(rest: Seq<char>, word: Seq<char>)
    requires
        forall|i: int| 0 <= i < word.len() ==> !whitespace(#[trigger] word[i]),
        rest.len() > 0 ==> whitespace(rest.last()),
    ensures
        ending_word(rest + word) == word,
    decreases word.len(),
{
    let s = rest + word;
    if word.len() == 0 {
        assert(s =~= rest);
        assert(word =~= seq![]);
    } else {
        let w = word.drop_last();
        assert(s.last() == word[word.len() - 1]);
        assert forall|i: int| 0 <= i < w.len() implies !whitespace(#[trigger] w[i]) by {
            assert(w[i] == word[i]);
        }
        lemma_ending_word(rest, w);
        assert(s.drop_last() =~= rest + w);
        assert(w.push(word.last()) =~= word);
    }
}

/// What stands before the cursor has as its bytes those of the line up to the cursor.
pub proof fn law_before_cursor(head: Seq<char>, tail: Seq<char>)
    ensures
        before_cursor(head + tail, encode_utf8(head).len() as int) == head,
{
    lemma_encode_concat(head, tail);
    let n = encode_utf8(head).len() as int;
    assert(encode_utf8(head + tail).subrange(0, n) =~= encode_utf8(head));
    encode_utf8_decode_utf8(head);
}

/// What is to be completed: of a line `before + word + after` with the cursor after `word`, where
/// the word holds no blank and a blank or nothing stands before it, it is the word that is
/// completed and replaced. With nothing before it, it is a command. Otherwise the script of the
/// first word of the line is asked, where it has one, with that word, the word, the word before
/// it, the line and the cursor, and where it has none it is a file.
pub proof fn law_request(
    before: Seq<char>,
    word: Seq<char>,
    after: Seq<char>,
    scripts: Map<Seq<char>, Seq<char>>,
)
    requires
        before.len() > 0 ==> before.last() == ' ',
        !word.contains(' '),
    ensures
        ({
            let line = before + word + after;
            let pos = encode_utf8(before + word).len() as int;
            let command = first_word(line);
            &&& word_offset(line, pos) == encode_utf8(before).len()
            &&& request(line, pos, scripts) == (if before.len() == 0 {
                RequestView::Command { prefix: word }
            } else if scripts.dom().contains(command) {
                RequestView::Script {
                    script: scripts[command],
                    command,
                    word,
                    previous: last_word(before),
                    line,
                    point: decimal(encode_utf8(before + word).len()),
                }
            } else {
                RequestView::Filename { word }
            })
        }),
{
    let head = before + word;
    let line = before + word + after;
    let pos = encode_utf8(head).len() as int;
    law_before_cursor(head, after);
    assert(line =~= head + after);
    lemma_after_last(head, ' ');
    let k = after_last(head, ' ');
    if k > before.len() {
        assert(head[k - 1] == word[k - 1 - before.len()]);
        assert(word.contains(' '));
    } else if k < before.len() {
        assert(head[before.len() - 1] == before.last());
    }
    assert(head.take(k) =~= before);
    assert(head.skip(k) =~= word);
    assert(before.len() == 0 ==> head =~= word);
}

} // verus!
