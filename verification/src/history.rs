//! The history of input lines: its list, its files and what of it was saved.
use crate::lines::{lines, lines_of, unlines, unlines_from};
use crate::numbers::{decimal, decimal_of, pad_left, padded_left};
use crate::text::texts;
use vstd::prelude::*;
use vstd::string::*;

verus! {

/// The lines that were entered or read from a file, and how many of them the history file
/// has already.
pub struct History {
    entries: Vec<String>,
    saved: usize,
}

/// The content of a `History`.
pub struct HistoryView {
    /// The lines, the oldest first.
    pub entries: Seq<Seq<char>>,
    /// How many of them the history file has already.
    pub saved: int,
}

impl View for History {
    type V = HistoryView;

    closed spec fn view(&self) -> HistoryView {
        HistoryView { entries: texts(self.entries@), saved: self.saved as int }
    }
}

/// How wide the numbers of the list are.
pub const NUMBER_WIDTH: usize = 5;

/// The line of the list about the entry at `i`: its number, counted from one, and its text.
pub open spec fn numbered(entries: Seq<Seq<char>>, i: int) -> Seq<char> {
    padded_left(decimal((i + 1) as nat), NUMBER_WIDTH as int) + "  "@ + entries[i] + "\n"@
}

/// The list of the entries from `from` up to `to`.
pub open spec fn listing(entries: Seq<Seq<char>>, from: int, to: int) -> Seq<char>
    decreases to - from,
{
    if to <= from {
        seq![]
    } else {
        listing(entries, from, to - 1) + numbered(entries, to - 1)
    }
}

/// The index of the first of the last `count` entries.
pub open spec fn first_of_last(entries: Seq<Seq<char>>, count: int) -> int {
    if count < entries.len() {
        entries.len() - count
    } else {
        0
    }
}

/// The history with the entry `line` after the others.
pub open spec fn with_entry(h: HistoryView, line: Seq<char>) -> HistoryView {
    HistoryView { entries: h.entries.push(line), ..h }
}

/// The history with the lines of `content` after the others.
pub open spec fn with_lines(h: HistoryView, content: Seq<char>) -> HistoryView {
    HistoryView { entries: h.entries + lines(content), ..h }
}

/// The history with everything counted as saved.
pub open spec fn all_saved(h: HistoryView) -> HistoryView {
    HistoryView { saved: h.entries.len() as int, ..h }
}

/// The entries that were not saved yet.
pub open spec fn unsaved(h: HistoryView) -> Seq<Seq<char>> {
    h.entries.skip(h.saved)
}

impl History {
    /// What every operation keeps: no more entries count as saved than there are.
    pub open spec fn wf(&self) -> bool {
        0 <= self@.saved <= self@.entries.len()
    }

    /// The history without entries.
    pub fn new() -> (h: History)
        ensures
            h.wf(),
            h@ == (HistoryView { entries: seq![], saved: 0 }),
    {
        let h = History { entries: Vec::new(), saved: 0 };
        assert(h@.entries =~= seq![]);
        h
    }

    /// The entries, the oldest first.
    pub fn entries(&self) -> (r: &Vec<String>)
        ensures
            texts(r@) == self@.entries,
    {
        &self.entries
    }

    /// Takes up a line that was entered.
    pub fn push(&mut self, line: &str)
        requires
            old(self).wf(),
        ensures
            final(self).wf(),
            final(self)@ == with_entry(old(self)@, line@),
    {
        self.entries.push(line.to_owned());
        assert(self@.entries =~= old(self)@.entries.push(line@));
    }

    /// Takes up the lines of a file.
    pub fn read(&mut self, content: &str)
        requires
            old(self).wf(),
        ensures
            final(self).wf(),
            final(self)@ == with_lines(old(self)@, content@),
    {
        let new = lines_of(content);
        let mut i: usize = 0;
        let ghost before = self@.entries;
        let ghost saved = self@.saved;
        assert(before + texts(new@).take(0) =~= before);
        while i < new.len()
            invariant
                i <= new@.len(),
                self@.entries == before + texts(new@).take(i as int),
                self@.saved == saved,
            decreases new@.len() - i,
        {
            let ghost so_far = self@.entries;
            self.entries.push(new[i].clone());
            assert(self@.entries =~= so_far.push(new@[i as int]@));
            i = i + 1;
            assert(texts(new@).take(i as int) =~= texts(new@).take(i - 1).push(new@[i - 1]@));
            assert(self@.entries =~= before + texts(new@).take(i as int));
        }
        assert(texts(new@).take(i as int) =~= texts(new@));
    }

    /// Counts everything as saved.
    pub fn mark_saved(&mut self)
        ensures
            final(self).wf(),
            final(self)@ == all_saved(old(self)@),
    {
        self.saved = self.entries.len();
    }

    /// The text of the whole history, as it is written to a file.
    pub fn content(&self) -> (s: String)
        ensures
            s@ == unlines(self@.entries),
    {
        assert(texts(self.entries@).skip(0) =~= texts(self.entries@));
        unlines_from(&self.entries, 0)
    }

    /// The text of the entries that were not saved yet, as it is added to a file.
    pub fn unsaved_content(&self) -> (s: String)
        requires
            self.wf(),
        ensures
            s@ == unlines(unsaved(self@)),
    {
        unlines_from(&self.entries, self.saved)
    }

    /// The numbered list of the last `count` entries, or of all where there are fewer.
    pub fn last(&self, count: usize) -> (s: String)
        ensures
            s@ == listing(
                self@.entries,
                first_of_last(self@.entries, count as int),
                self@.entries.len() as int,
            ),
    {
        let n: usize = self.entries.len();
        let from: usize = if count < n {
            n - count
        } else {
            0
        };
        let ghost entries = self@.entries;
        let mut s = String::new();
        let mut i: usize = from;
        while i < n
            invariant
                from <= i <= n,
                n == self.entries@.len(),
                entries == texts(self.entries@),
                s@ == listing(entries, from as int, i as int),
            decreases n - i,
        {
            let ghost so_far = s@;
            let number = decimal_of(i as u64 + 1);
            s.append(pad_left(number.as_str(), NUMBER_WIDTH).as_str());
            s.append("  ");
            s.append(self.entries[i].as_str());
            s.append("\n");
            assert(s@ =~= so_far + numbered(entries, i as int));
            i = i + 1;
        }
        s
    }

    /// The numbered list of all entries.
    pub fn all(&self) -> (s: String)
        ensures
            s@ == listing(self@.entries, 0, self@.entries.len() as int),
    {
        self.last(self.entries.len())
    }
}

/// After everything was counted as saved there is nothing left to add to the file, and of
/// the lines that come later exactly those are left: no entry is added twice, and none is
/// passed over.
pub proof fn law_only_new_entries_are_added(h: HistoryView, line: Seq<char>)
    requires
        0 <= h.saved <= h.entries.len(),
    ensures
        unsaved(all_saved(h)) == Seq::<Seq<char>>::empty(),
        unsaved(with_entry(h, line)) == unsaved(h).push(line),
        h.entries.take(h.saved) + unsaved(h) == h.entries,
{
    assert(unsaved(all_saved(h)) =~= Seq::<Seq<char>>::empty());
    assert(unsaved(with_entry(h, line)) =~= unsaved(h).push(line));
    assert(h.entries.take(h.saved) + unsaved(h) =~= h.entries);
}

/// Adding to the file in two steps, with lines entered in between, leaves the same text in it
/// as adding all at once.
pub proof fn law_adding_in_steps(h: HistoryView, later: Seq<Seq<char>>)
    requires
        0 <= h.saved <= h.entries.len(),
    ensures
        ({
            let then = HistoryView { entries: h.entries + later, ..all_saved(h) };
            let at_once = HistoryView { entries: h.entries + later, ..h };
            unlines(unsaved(h)) + unlines(unsaved(then)) == unlines(unsaved(at_once))
        }),
{
    let then = HistoryView { entries: h.entries + later, ..all_saved(h) };
    let at_once = HistoryView { entries: h.entries + later, ..h };
    assert(unsaved(then) =~= later);
    assert(unsaved(at_once) =~= unsaved(h) + later);
    lemma_unlines_concat(unsaved(h), later);
}

proof fn lemma_unlines_concat(a: Seq<Seq<char>>, b: Seq<Seq<char>>)
    ensures
        unlines(a + b) == unlines(a) + unlines(b),
    decreases b.len(),
{
    if b.len() == 0 {
        assert(a + b =~= a);
        assert(unlines(a) + unlines(b) =~= unlines(a));
    } else {
        lemma_unlines_concat(a, b.drop_last());
        assert((a + b).drop_last() =~= a + b.drop_last());
        assert(unlines(a + b) =~= unlines(a) + unlines(b));
    }
}

/// The list of the last entries is the end of the list of all: an entry has the same number in
/// both. Where more entries are asked for than there are, it is the whole list.
pub proof fn law_last_entries_end_the_list(entries: Seq<Seq<char>>, count: int)
    requires
        count >= 0,
    ensures
        ({
            let n = entries.len() as int;
            let from = first_of_last(entries, count);
            &&& listing(entries, 0, n) == listing(entries, 0, from) + listing(entries, from, n)
            &&& count >= n ==> listing(entries, from, n) == listing(entries, 0, n)
            &&& count < n ==> n - from == count
        }),
{
    lemma_listing_split(entries, first_of_last(entries, count), entries.len() as int);
}

proof fn lemma_listing_split(entries: Seq<Seq<char>>, from: int, to: int)
    requires
        0 <= from <= to,
    ensures
        listing(entries, 0, to) == listing(entries, 0, from) + listing(entries, from, to),
    decreases to,
{
    if to == from {
        assert(listing(entries, 0, from) + listing(entries, from, to) =~= listing(entries, 0, from));
    } else {
        lemma_listing_split(entries, from, to - 1);
        assert(listing(entries, 0, to) =~= listing(entries, 0, from) + listing(entries, from, to));
    }
}

/// A history that is written to a file and read into an empty one is the same list again, as
/// long as its entries are single lines.
pub proof fn law_history_file_round_trip(h: HistoryView, empty: HistoryView)
    requires
        forall|i: int| 0 <= i < h.entries.len() ==> crate::lines::is_line(#[trigger] h.entries[i]),
        empty.entries.len() == 0,
    ensures
        with_lines(empty, unlines(h.entries)).entries == h.entries,
{
    crate::lines::law_lines_read_back_what_was_written(h.entries);
    assert(empty.entries + h.entries =~= h.entries);
}

/// An entry goes after the others, the lines of a file go after the others, nothing that is
/// there is lost, and neither counts as saved by that; to count everything as saved changes no
/// entry.
pub proof fn law_history_keeps_its_entries(h: HistoryView, line: Seq<char>, content: Seq<char>)
    ensures
        with_entry(h, line).entries == h.entries.push(line),
        with_entry(h, line).saved == h.saved,
        with_lines(h, content).entries == h.entries + lines(content),
        with_lines(h, content).saved == h.saved,
        all_saved(h).entries == h.entries,
        all_saved(h).saved == h.entries.len(),
        unsaved(h) == h.entries.skip(h.saved),
{
}

/// The list has a line for each entry from `from` on, in their order: the number, counted from
/// one and five wide, two blanks and the entry.
pub proof fn law_listing(entries: Seq<Seq<char>>, from: int, to: int)
    requires
        0 <= from <= to < entries.len(),
    ensures
        listing(entries, from, from) == Seq::<char>::empty(),
        listing(entries, from, to + 1) == listing(entries, from, to) + padded_left(
            decimal((to + 1) as nat),
            5,
        ) + seq![' ', ' '] + entries[to] + seq!['\n'],
{
    reveal_strlit("  ");
    reveal_strlit("\n");
    assert("  "@ =~= seq![' ', ' ']);
    assert("\n"@ =~= seq!['\n']);
    assert(listing(entries, from, to + 1) =~= listing(entries, from, to) + padded_left(
        decimal((to + 1) as nat),
        5,
    ) + seq![' ', ' '] + entries[to] + seq!['\n']);
}

/// Where at most as many entries are asked for as there are, exactly so many are listed, and
/// otherwise all.
pub proof fn law_how_many_are_listed(entries: Seq<Seq<char>>, count: int)
    requires
        count >= 0,
    ensures
        count <= entries.len() ==> entries.len() - first_of_last(entries, count) == count,
        count > entries.len() ==> first_of_last(entries, count) == 0,
{
}

} // verus!
