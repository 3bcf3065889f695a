//! Texts of lines, as files hold them.
use crate::text::{
    chars_of, find_from, lemma_span, lemma_span_is_longest, span, string_of, texts, up_to,
};
use vstd::prelude::*;
use vstd::string::*;

verus! {

/// A line without the carriage return that may end it.
pub open spec fn without_return(line: Seq<char>) -> Seq<char> {
    if line.len() > 0 && line.last() == '\r' {
        line.drop_last()
    } else {
        line
    }
}

/// The lines of a text: each ends with a line feed, or a carriage return and a line feed,
/// which do not belong to it. After the last one the line feed may be missing.
pub open spec fn lines(s: Seq<char>) -> Seq<Seq<char>>
    decreases s.len(),
{
    if s.len() == 0 {
        seq![]
    } else {
        proof {
            lemma_span_is_longest(s, up_to('\n'));
        }
        let k = span(s, up_to('\n'));
        if k == s.len() {
            seq![s]
        } else {
            seq![without_return(s.take(k))] + lines(s.skip(k + 1))
        }
    }
}

/// The lines of a text.
pub fn lines_of(s: &str) -> (r: Vec<String>)
    ensures
        texts(r@) == lines(s@),
{
    let chars = chars_of(s);
    let mut r: Vec<String> = Vec::new();
    let mut pos: usize = 0;
    assert(chars@.skip(0) =~= s@);
    assert(texts(r@) + lines(s@) =~= lines(s@));
    while pos < chars.len()
        invariant
            pos <= chars@.len(),
            texts(r@) + lines(chars@.skip(pos as int)) == lines(s@),
        decreases chars@.len() - pos,
    {
        let ghost rest = chars@.skip(pos as int);
        let ghost so_far = texts(r@);
        let end: usize = find_from(&chars, pos, '\n');
        if end == chars.len() {
            let line = string_of(&chars, pos, end);
            assert(line@ =~= rest);
            r.push(line);
            assert(texts(r@) =~= so_far.push(rest));
            pos = end;
            assert(lines(chars@.skip(pos as int)) =~= seq![]);
            assert(so_far + seq![rest] =~= so_far.push(rest) + seq![]);
        } else {
            let ghost k: int = end - pos;
            assert(rest.take(k) =~= chars@.subrange(pos as int, end as int));
            let to: usize = if end > pos && chars[end - 1] == '\r' {
                end - 1
            } else {
                end
            };
            let line = string_of(&chars, pos, to);
            assert(line@ =~= without_return(rest.take(k)));
            r.push(line);
            assert(texts(r@) =~= so_far.push(without_return(rest.take(k))));
            pos = end + 1;
            assert(chars@.skip(pos as int) =~= rest.skip(k + 1));
            let ghost tail = lines(rest.skip(k + 1));
            assert(so_far + (seq![without_return(rest.take(k))] + tail) =~= so_far.push(
                without_return(rest.take(k)),
            ) + tail);
        }
    }
    assert(texts(r@) =~= lines(s@));
    r
}

/// The entries one after the other, each with a line feed after it.
pub open spec fn unlines(entries: Seq<Seq<char>>) -> Seq<char>
    decreases entries.len(),
{
    if entries.len() == 0 {
        seq![]
    } else {
        unlines(entries.drop_last()) + entries.last() + "\n"@
    }
}

/// The strings of `list` from index `from` on, each with a line feed after it.
pub fn unlines_from(list: &Vec<String>, from: usize) -> (s: String)
    requires
        from <= list@.len(),
    ensures
        s@ == unlines(texts(list@).skip(from as int)),
{
    let mut s = String::new();
    let mut i: usize = from;
    let ghost parts = texts(list@).skip(from as int);
    while i < list.len()
        invariant
            from <= i <= list@.len(),
            parts == texts(list@).skip(from as int),
            s@ == unlines(parts.take(i - from)),
        decreases list@.len() - i,
    {
        let ghost after = parts.take(i + 1 - from);
        assert(after.drop_last() =~= parts.take(i - from));
        assert(after.last() == list@[i as int]@);
        s.append(list[i].as_str());
        s.append("\n");
        i = i + 1;
    }
    assert(parts.take(i - from) =~= parts);
    s
}

/// A text that is one line: no line feed in it, and no carriage return at its end.
pub open spec fn is_line(s: Seq<char>) -> bool {
    !s.contains('\n') && (s.len() > 0 ==> s.last() != '\r')
}

proof fn lemma_unlines_front(entries: Seq<Seq<char>>)
    requires
        entries.len() > 0,
    ensures
        unlines(entries) == entries[0] + seq!['\n'] + unlines(entries.skip(1)),
    decreases entries.len(),
{
    reveal_strlit("\n");
    assert("\n"@ =~= seq!['\n']);
    let rest = entries.skip(1);
    if entries.len() == 1 {
        assert(unlines(entries.drop_last()) =~= seq![]);
        assert(unlines(entries) =~= entries[0] + seq!['\n'] + unlines(rest));
    } else {
        lemma_unlines_front(entries.drop_last());
        assert(entries.drop_last().skip(1) =~= rest.drop_last());
        assert(rest.last() == entries.last());
        assert(unlines(entries) =~= entries[0] + seq!['\n'] + unlines(rest));
    }
}

/// Entries that are lines come back from the text that they were written to.
pub proof fn law_lines_read_back_what_was_written(entries: Seq<Seq<char>>)
    requires
        forall|i: int| 0 <= i < entries.len() ==> is_line(#[trigger] entries[i]),
    ensures
        lines(unlines(entries)) == entries,
    decreases entries.len(),
{
    if entries.len() == 0 {
        assert(lines(unlines(entries)) =~= entries);
    } else {
        let first = entries[0];
        let rest = entries.skip(1);
        let s = unlines(entries);
        lemma_unlines_front(entries);
        assert(is_line(first));
        assert forall|i: int| 0 <= i < first.len() implies up_to('\n')(s[i]) by {
            assert(s[i] == first[i]);
            assert(first.contains(first[i]));
        }
        assert(s[first.len() as int] == '\n');
        lemma_span(s, up_to('\n'), first.len() as int);
        assert(s.take(first.len() as int) =~= first);
        assert(s.skip(first.len() as int + 1) =~= unlines(rest));
        law_lines_read_back_what_was_written(rest);
        assert(seq![first] + rest =~= entries);
    }
}

/// A line ends with a line feed, or with a carriage return and a line feed, and neither belongs
/// to it; after the last line the line feed may be missing, and then all of it belongs to it.
pub proof fn law_lines(line: Seq<char>, rest: Seq<char>)
    requires
        !line.contains('\n'),
    ensures
        lines(seq![]) == Seq::<Seq<char>>::empty(),
        line.len() > 0 ==> lines(line) == seq![line],
        lines(line + seq!['\n'] + rest) == seq![
            if line.len() > 0 && line.last() == '\r' {
                line.drop_last()
            } else {
                line
            },
        ] + lines(rest),
{
    let s = line + seq!['\n'] + rest;
    let n = line.len() as int;
    assert forall|i: int| 0 <= i < n implies up_to('\n')(s[i]) && up_to('\n')(line[i]) by {
        assert(s[i] == line[i]);
        assert(line.contains(line[i]));
    }
    assert(s[n] == '\n');
    lemma_span(s, up_to('\n'), n);
    lemma_span(line, up_to('\n'), n);
    assert(s.take(n) =~= line);
    assert(s.skip(n + 1) =~= rest);
}

/// Each entry is written with a line feed after it, in the order of the entries.
pub proof fn law_unlines(entries: Seq<Seq<char>>, entry: Seq<char>)
    ensures
        unlines(seq![]) == Seq::<char>::empty(),
        unlines(entries.push(entry)) == unlines(entries) + entry + seq!['\n'],
{
    reveal_strlit("\n");
    assert("\n"@ =~= seq!['\n']);
    assert(entries.push(entry).drop_last() =~= entries);
}

} // verus!
