//! The candidates for a word that is completed: commands, files and the lines of a script.
use crate::builtins::builtin_name;
use crate::lines::{lines, lines_of};
use crate::text::{
    after_last, chars_of, find_after_last, has_prefix, lemma_after_last, starts_with, string_of,
    texts,
};
use vstd::prelude::*;
use vstd::string::*;
use vstd::utf8::*;

verus! {

/// What the user is offered.
pub struct Candidate {
    /// How it is shown.
    pub display: String,
    /// What the word is replaced by.
    pub replacement: String,
}

/// The content of a `Candidate`.
pub struct CandidateView {
    /// How it is shown.
    pub display: Seq<char>,
    /// What the word is replaced by.
    pub replacement: Seq<char>,
}

impl View for Candidate {
    type V = CandidateView;

    open spec fn view(&self) -> CandidateView {
        CandidateView { display: self.display@, replacement: self.replacement@ }
    }
}

/// The candidates of a list, by their content.
pub open spec fn candidate_views(v: Seq<Candidate>) -> Seq<CandidateView> {
    v.map_values(|c: Candidate| c@)
}

/// The candidate for a whole word: a blank follows it.
pub open spec fn whole_word(word: Seq<char>) -> CandidateView {
    CandidateView { display: word, replacement: word + " "@ }
}

/// The candidate for a whole word.
fn offer_word(word: &str) -> (c: Candidate)
    ensures
        c@ == whole_word(word@),
{
    let mut replacement = word.to_owned();
    replacement.append(" ");
    Candidate { display: word.to_owned(), replacement }
}

/// Those of the words that begin with `prefix`, in their order, as candidates.
pub open spec fn word_candidates(words: Seq<Seq<char>>, prefix: Seq<char>) -> Seq<CandidateView>
    decreases words.len(),
{
    if words.len() == 0 {
        seq![]
    } else {
        let before = word_candidates(words.drop_last(), prefix);
        if has_prefix(words.last(), prefix) {
            before.push(whole_word(words.last()))
        } else {
            before
        }
    }
}

/// Those of the words that begin with `prefix`, in their order, as candidates.
fn complete_from_words(words: &Vec<String>, prefix: &str) -> (r: Vec<Candidate>)
    ensures
        candidate_views(r@) == word_candidates(texts(words@), prefix@),
{
    let ghost goal = texts(words@);
    let mut r: Vec<Candidate> = Vec::new();
    let mut i: usize = 0;
    assert(candidate_views(r@) =~= word_candidates(goal.take(0), prefix@));
    while i < words.len()
        invariant
            i <= words@.len(),
            goal == texts(words@),
            candidate_views(r@) == word_candidates(goal.take(i as int), prefix@),
        decreases words@.len() - i,
    {
        let ghost before = candidate_views(r@);
        let ghost next = goal.take(i + 1);
        assert(next.drop_last() =~= goal.take(i as int));
        assert(next.last() == words@[i as int]@);
        if starts_with(words[i].as_str(), prefix) {
            r.push(offer_word(words[i].as_str()));
            assert(candidate_views(r@) =~= before.push(whole_word(words@[i as int]@)));
        }
        i = i + 1;
    }
    assert(goal.take(i as int) =~= goal);
    r
}

/// What is known of a file.
pub struct FileMeta {
    /// Whether it is a regular file.
    pub is_file: bool,
    /// Its permission bits, where the system has them.
    pub mode: Option<u32>,
}

/// The permission bits that let someone execute a file: the owner, the group or the others.
pub const EXECUTE_BITS: u32 = 0o111;

/// A regular file that someone may execute. Where the system has no permission bits every
/// regular file is one.
pub open spec fn executable(meta: FileMeta) -> bool {
    meta.is_file && match meta.mode {
        Some(mode) => mode & EXECUTE_BITS != 0,
        None => true,
    }
}

/// Whether the file can be run.
pub fn is_executable(meta: &FileMeta) -> (r: bool)
    ensures
        r == executable(*meta),
{
    meta.is_file && match meta.mode {
        Some(mode) => mode & EXECUTE_BITS != 0,
        None => true,
    }
}

/// What is there can be run.
pub open spec fn runnable(meta: Option<FileMeta>) -> bool {
    meta is Some && executable(meta->0)
}

/// The first of the places where a program is looked for that holds a file which can be run.
pub fn find_in_path(found: &Vec<Option<FileMeta>>) -> (r: Option<usize>)
    ensures
        match r {
            Some(i) => {
                &&& i < found@.len()
                &&& runnable(found@[i as int])
                &&& forall|j: int| 0 <= j < i ==> !runnable(#[trigger] found@[j])
            },
            None => forall|j: int| 0 <= j < found@.len() ==> !runnable(#[trigger] found@[j]),
        },
{
    let mut i: usize = 0;
    while i < found.len()
        invariant
            i <= found@.len(),
            forall|j: int| 0 <= j < i ==> !runnable(#[trigger] found@[j]),
        decreases found@.len() - i,
    {
        if let Some(meta) = &found[i] {
            if is_executable(meta) {
                return Some(i);
            }
        }
        i = i + 1;
    }
    None
}

/// An entry of a directory where programs are looked for.
pub struct ProgramEntry {
    /// Its name.
    pub name: String,
    /// What is known of it, if it could be found out.
    pub meta: Option<FileMeta>,
}

/// The entry is a program whose name begins with `prefix`.
pub open spec fn matches_command(entry: ProgramEntry, prefix: Seq<char>) -> bool {
    has_prefix(entry.name@, prefix) && runnable(entry.meta)
}

/// The builtins, in the order in which they are offered.
pub open spec fn offered_builtins() -> Seq<Seq<char>> {
    seq![
        "echo"@,
        "exit"@,
        "pwd"@,
        "cd"@,
        "type"@,
        "complete"@,
        "jobs"@,
        "history"@,
        "declare"@,
    ]
}

/// The commands that are offered for `prefix`: builtins, then programs.
pub open spec fn command_candidates(prefix: Seq<char>, entries: Seq<ProgramEntry>) -> Seq<
    CandidateView,
>
    decreases entries.len(),
{
    if entries.len() == 0 {
        word_candidates(offered_builtins(), prefix)
    } else {
        let before = command_candidates(prefix, entries.drop_last());
        if matches_command(entries.last(), prefix) {
            before.push(whole_word(entries.last().name@))
        } else {
            before
        }
    }
}

/// The commands that begin with `prefix`, builtins and programs, given the entries of the
/// directories where programs are looked for.
pub fn complete_command(prefix: &str, entries: &Vec<ProgramEntry>) -> (r: Vec<Candidate>)
    ensures
        candidate_views(r@) == command_candidates(prefix@, entries@),
{
    let builtins = vec![
        "echo".to_owned(),
        "exit".to_owned(),
        "pwd".to_owned(),
        "cd".to_owned(),
        "type".to_owned(),
        "complete".to_owned(),
        "jobs".to_owned(),
        "history".to_owned(),
        "declare".to_owned(),
    ];
    assert(texts(builtins@) =~= offered_builtins());
    let mut r = complete_from_words(&builtins, prefix);
    let mut i: usize = 0;
    assert(entries@.take(0) =~= seq![]);
    while i < entries.len()
        invariant
            i <= entries@.len(),
            candidate_views(r@) == command_candidates(prefix@, entries@.take(i as int)),
        decreases entries@.len() - i,
    {
        let ghost before = candidate_views(r@);
        let ghost next = entries@.take(i + 1);
        assert(next.drop_last() =~= entries@.take(i as int));
        assert(next.last() == entries@[i as int]);
        let entry = &entries[i];
        if starts_with(entry.name.as_str(), prefix) {
            if let Some(meta) = &entry.meta {
                if is_executable(meta) {
                    r.push(offer_word(entry.name.as_str()));
                    assert(candidate_views(r@) =~= before.push(whole_word(entry.name@)));
                }
            }
        }
        i = i + 1;
    }
    assert(entries@.take(i as int) =~= entries@);
    r
}

/// An entry of a directory.
pub struct DirEntry {
    /// Its name.
    pub name: String,
    /// Whether it is a directory.
    pub is_dir: bool,
}

/// The directory part of a path: everything up to and with its last `/`.
pub open spec fn dir_part(word: Seq<char>) -> Seq<char> {
    word.take(after_last(word, '/'))
}

/// The file part of a path: what follows its last `/`.
pub open spec fn file_part(word: Seq<char>) -> Seq<char> {
    word.skip(after_last(word, '/'))
}

/// The candidate for a directory entry: a directory is followed by `/`, a file by a blank.
pub open spec fn path_candidate(word: Seq<char>, entry: DirEntry) -> CandidateView {
    if entry.is_dir {
        CandidateView {
            display: entry.name@ + "/"@,
            replacement: dir_part(word) + entry.name@ + "/"@,
        }
    } else {
        CandidateView { display: entry.name@, replacement: dir_part(word) + entry.name@ + " "@ }
    }
}

/// The files that are offered for `word`: the entries whose name begins with its file part.
pub open spec fn filename_candidates(word: Seq<char>, entries: Seq<DirEntry>) -> Seq<
    CandidateView,
>
    decreases entries.len(),
{
    if entries.len() == 0 {
        seq![]
    } else {
        let before = filename_candidates(word, entries.drop_last());
        if has_prefix(entries.last().name@, file_part(word)) {
            before.push(path_candidate(word, entries.last()))
        } else {
            before
        }
    }
}

/// The directory in which the files for `word` are looked up: the current one where the word
/// names none.
pub fn listed_directory(word: &str) -> (dir: String)
    ensures
        dir@ == (if dir_part(word@).len() == 0 {
            "."@
        } else {
            dir_part(word@)
        }),
{
    let chars = chars_of(word);
    let cut: usize = find_after_last(&chars, '/');
    if cut == 0 {
        return ".".to_owned();
    }
    let dir = string_of(&chars, 0, cut);
    assert(dir@ =~= dir_part(word@));
    dir
}

/// The files that begin with `word`, given the entries of its directory.
pub fn complete_filename(word: &str, entries: &Vec<DirEntry>) -> (r: Vec<Candidate>)
    ensures
        candidate_views(r@) == filename_candidates(word@, entries@),
{
    let chars = chars_of(word);
    let cut: usize = find_after_last(&chars, '/');
    let dir = string_of(&chars, 0, cut);
    let prefix = string_of(&chars, cut, chars.len());
    assert(dir@ =~= dir_part(word@));
    assert(prefix@ =~= file_part(word@));
    let mut r: Vec<Candidate> = Vec::new();
    let mut i: usize = 0;
    assert(candidate_views(r@) =~= filename_candidates(word@, entries@.take(0)));
    while i < entries.len()
        invariant
            i <= entries@.len(),
            dir@ == dir_part(word@),
            prefix@ == file_part(word@),
            candidate_views(r@) == filename_candidates(word@, entries@.take(i as int)),
        decreases entries@.len() - i,
    {
        let ghost before = candidate_views(r@);
        let ghost next = entries@.take(i + 1);
        assert(next.drop_last() =~= entries@.take(i as int));
        assert(next.last() == entries@[i as int]);
        let entry = &entries[i];
        if starts_with(entry.name.as_str(), prefix.as_str()) {
            let mut display = entry.name.clone();
            let mut replacement = dir.clone();
            replacement.append(entry.name.as_str());
            if entry.is_dir {
                display.append("/");
                replacement.append("/");
            } else {
                replacement.append(" ");
            }
            let c = Candidate { display, replacement };
            assert(c@ == path_candidate(word@, *entry));
            r.push(c);
            assert(candidate_views(r@) =~= before.push(path_candidate(word@, *entry)));
        }
        i = i + 1;
    }
    assert(entries@.take(i as int) =~= entries@);
    r
}

/// What `String::from_utf8_lossy` makes of bytes.
pub uninterp spec fn lossy_utf8(bytes: Seq<u8>) -> Seq<char>;

/// `String::from_utf8_lossy`: the text of bytes, with replacement characters where they are
/// no UTF-8; it has the name `lossy_utf8`. Bytes that are UTF-8 are decoded as such.
#[verifier::external_body]
fn decode_lossy(bytes: &[u8]) -> (s: String)
    ensures
        s@ == lossy_utf8(bytes@),
        valid_utf8(bytes@) ==> s@ == decode_utf8(bytes@),
{
    String::from_utf8_lossy(bytes).into_owned()
}

/// The candidates that a completion script gives with its output: those of its lines that
/// begin with the word.
pub fn complete_from_text(output: &str, word: &str) -> (r: Vec<Candidate>)
    ensures
        candidate_views(r@) == word_candidates(lines(output@), word@),
{
    complete_from_words(&lines_of(output), word)
}

/// The candidates that a completion script gives with the bytes that it wrote.
pub fn complete_from_output(output: &Vec<u8>, word: &str) -> (r: Vec<Candidate>)
    ensures
        candidate_views(r@) == word_candidates(lines(lossy_utf8(output@)), word@),
        valid_utf8(output@) ==> candidate_views(r@) == word_candidates(
            lines(decode_utf8(output@)),
            word@,
        ),
{
    let text = decode_lossy(output.as_slice());
    complete_from_text(text.as_str(), word)
}

/// Every command that is offered begins with what was typed of it.
pub proof fn law_commands_extend_the_word(prefix: Seq<char>, entries: Seq<ProgramEntry>)
    ensures
        forall|i: int|
            0 <= i < command_candidates(prefix, entries).len() ==> has_prefix(
                (#[trigger] command_candidates(prefix, entries)[i]).replacement,
                prefix,
            ),
    decreases entries.len(),
{
    let all = command_candidates(prefix, entries);
    if entries.len() == 0 {
        law_words_extend_the_word(offered_builtins(), prefix);
    } else {
        law_commands_extend_the_word(prefix, entries.drop_last());
        let before = command_candidates(prefix, entries.drop_last());
        lemma_whole_word(entries.last().name@, prefix);
        assert forall|i: int| 0 <= i < all.len() implies has_prefix(
            (#[trigger] all[i]).replacement,
            prefix,
        ) by {
            if i < before.len() {
                assert(all[i] == before[i]);
            }
        }
    }
}

/// Every builtin that begins with what was typed is offered, and so is every program.
pub proof fn law_every_command_is_offered(prefix: Seq<char>, entries: Seq<ProgramEntry>)
    ensures
        forall|name: Seq<char>|
            #![trigger whole_word(name)]
            builtin_name(name) && has_prefix(name, prefix) ==> command_candidates(
                prefix,
                entries,
            ).contains(whole_word(name)),
        forall|i: int|
            0 <= i < entries.len() && matches_command(#[trigger] entries[i], prefix)
                ==> command_candidates(prefix, entries).contains(whole_word(entries[i].name@)),
    decreases entries.len(),
{
    let all = command_candidates(prefix, entries);
    if entries.len() == 0 {
        let builtins = offered_builtins();
        lemma_every_word_is_offered(builtins, prefix);
        assert forall|name: Seq<char>|
            #![trigger whole_word(name)]
            builtin_name(name) && has_prefix(name, prefix) implies all.contains(
            whole_word(name),
        ) by {
            assert(builtins[0] == "echo"@ && builtins[1] == "exit"@ && builtins[2] == "pwd"@);
            assert(builtins[3] == "cd"@ && builtins[4] == "type"@ && builtins[5] == "complete"@);
            assert(builtins[6] == "jobs"@ && builtins[7] == "history"@ && builtins[8]
                == "declare"@);
            let i = choose|i: int| 0 <= i < builtins.len() && builtins[i] == name;
            assert(has_prefix(builtins[i], prefix));
        }
    } else {
        law_every_command_is_offered(prefix, entries.drop_last());
        let before = command_candidates(prefix, entries.drop_last());
        assert forall|c: CandidateView| before.contains(c) implies all.contains(c) by {
            let i = choose|i: int| 0 <= i < before.len() && before[i] == c;
            assert(all[i] == c);
        }
        assert forall|i: int|
            0 <= i < entries.len() && matches_command(
                #[trigger] entries[i],
                prefix,
            ) implies all.contains(whole_word(entries[i].name@)) by {
            if i < entries.len() - 1 {
                assert(entries.drop_last()[i] == entries[i]);
            } else {
                assert(all[all.len() - 1] == whole_word(entries[i].name@));
            }
        }
    }
}

proof fn lemma_every_word_is_offered(words: Seq<Seq<char>>, prefix: Seq<char>)
    ensures
        forall|i: int|
            0 <= i < words.len() && has_prefix(#[trigger] words[i], prefix) ==> word_candidates(
                words,
                prefix,
            ).contains(whole_word(words[i])),
    decreases words.len(),
{
    if words.len() > 0 {
        lemma_every_word_is_offered(words.drop_last(), prefix);
        let before = word_candidates(words.drop_last(), prefix);
        let all = word_candidates(words, prefix);
        assert forall|i: int|
            0 <= i < words.len() && has_prefix(#[trigger] words[i], prefix) implies all.contains(
            whole_word(words[i]),
        ) by {
            if i < words.len() - 1 {
                assert(words.drop_last()[i] == words[i]);
                let j = choose|j: int| 0 <= j < before.len() && before[j] == whole_word(words[i]);
                assert(all[j] == whole_word(words[i]));
            } else {
                assert(all[all.len() - 1] == whole_word(words[i]));
            }
        }
    }
}

proof fn lemma_whole_word(word: Seq<char>, prefix: Seq<char>)
    ensures
        has_prefix(word, prefix) ==> has_prefix(whole_word(word).replacement, prefix),
{
    if has_prefix(word, prefix) {
        assert(whole_word(word).replacement.take(prefix.len() as int) =~= word.take(
            prefix.len() as int,
        ));
    }
}

/// Every file that is offered begins with what was typed of its path; a directory ends with
/// `/`, and any other file with a blank.
pub proof fn law_files_extend_the_word(word: Seq<char>, entries: Seq<DirEntry>)
    ensures
        forall|i: int|
            0 <= i < filename_candidates(word, entries).len() ==> has_prefix(
                (#[trigger] filename_candidates(word, entries)[i]).replacement,
                word,
            ),
        forall|i: int|
            0 <= i < filename_candidates(word, entries).len() ==> {
                let last = (#[trigger] filename_candidates(word, entries)[i]).replacement.last();
                last == '/' || last == ' '
            },
    decreases entries.len(),
{
    let all = filename_candidates(word, entries);
    if entries.len() > 0 {
        law_files_extend_the_word(word, entries.drop_last());
        let before = filename_candidates(word, entries.drop_last());
        let entry = entries.last();
        if has_prefix(entry.name@, file_part(word)) {
            lemma_path_candidate(word, entry);
        }
        assert forall|i: int| 0 <= i < all.len() implies has_prefix(
            (#[trigger] all[i]).replacement,
            word,
        ) && (all[i].replacement.last() == '/' || all[i].replacement.last() == ' ') by {
            if i < before.len() {
                assert(all[i] == before[i]);
            }
        }
    }
}

proof fn lemma_path_candidate(word: Seq<char>, entry: DirEntry)
    requires
        has_prefix(entry.name@, file_part(word)),
    ensures
        has_prefix(path_candidate(word, entry).replacement, word),
        path_candidate(word, entry).replacement.last() == (if entry.is_dir {
            '/'
        } else {
            ' '
        }),
{
    reveal_strlit("/");
    reveal_strlit(" ");
    lemma_after_last(word, '/');
    let r = path_candidate(word, entry).replacement;
    assert(word =~= dir_part(word) + file_part(word));
    assert(entry.name@ =~= file_part(word) + entry.name@.skip(file_part(word).len() as int));
    assert(r.take(word.len() as int) =~= word);
}

/// Every word of a list that is offered, such as a line of a completion script, begins with
/// what was typed of it.
pub proof fn law_words_extend_the_word(ls: Seq<Seq<char>>, word: Seq<char>)
    ensures
        forall|i: int|
            0 <= i < word_candidates(ls, word).len() ==> has_prefix(
                (#[trigger] word_candidates(ls, word)[i]).replacement,
                word,
            ),
    decreases ls.len(),
{
    let all = word_candidates(ls, word);
    if ls.len() > 0 {
        law_words_extend_the_word(ls.drop_last(), word);
        let before = word_candidates(ls.drop_last(), word);
        lemma_whole_word(ls.last(), word);
        assert forall|i: int| 0 <= i < all.len() implies has_prefix(
            (#[trigger] all[i]).replacement,
            word,
        ) by {
            if i < before.len() {
                assert(all[i] == before[i]);
            }
        }
    }
}

/// Typing more of a word of a list, such as a line of a completion script, only narrows what is
/// offered.
pub proof fn law_typing_narrows_the_words(ls: Seq<Seq<char>>, word: Seq<char>, longer: Seq<char>)
    requires
        has_prefix(longer, word),
    ensures
        forall|i: int|
            0 <= i < word_candidates(ls, longer).len() ==> word_candidates(ls, word).contains(
                #[trigger] word_candidates(ls, longer)[i],
            ),
    decreases ls.len(),
{
    if ls.len() > 0 {
        law_typing_narrows_the_words(ls.drop_last(), word, longer);
        let less = word_candidates(ls.drop_last(), word);
        let all = word_candidates(ls, word);
        let narrow = word_candidates(ls, longer);
        lemma_prefix_of_prefix(ls.last(), longer, word);
        assert forall|i: int| 0 <= i < narrow.len() implies all.contains(#[trigger] narrow[i]) by {
            if i < word_candidates(ls.drop_last(), longer).len() {
                assert(narrow[i] == word_candidates(ls.drop_last(), longer)[i]);
                let j = choose|j: int| 0 <= j < less.len() && less[j] == narrow[i];
                assert(all[j] == narrow[i]);
            } else {
                assert(all[all.len() - 1] == narrow[i]);
            }
        }
    }
}

proof fn lemma_prefix_of_prefix(s: Seq<char>, longer: Seq<char>, prefix: Seq<char>)
    requires
        has_prefix(longer, prefix),
    ensures
        has_prefix(s, longer) ==> has_prefix(s, prefix),
{
    if has_prefix(s, longer) {
        assert(s.take(prefix.len() as int) =~= longer.take(prefix.len() as int)) by {
            assert forall|i: int| 0 <= i < prefix.len() implies s[i] == longer[i] by {
                assert(s.take(longer.len() as int)[i] == longer[i]);
            }
        }
    }
}

/// Typing more of a command only narrows what is offered.
pub proof fn law_typing_narrows_the_commands(
    prefix: Seq<char>,
    longer: Seq<char>,
    entries: Seq<ProgramEntry>,
)
    requires
        has_prefix(longer, prefix),
    ensures
        forall|i: int|
            0 <= i < command_candidates(longer, entries).len() ==> command_candidates(
                prefix,
                entries,
            ).contains(#[trigger] command_candidates(longer, entries)[i]),
    decreases entries.len(),
{
    if entries.len() == 0 {
        law_typing_narrows_the_words(offered_builtins(), prefix, longer);
    } else {
        law_typing_narrows_the_commands(prefix, longer, entries.drop_last());
        let less = command_candidates(prefix, entries.drop_last());
        let all = command_candidates(prefix, entries);
        let narrow = command_candidates(longer, entries);
        lemma_prefix_of_prefix(entries.last().name@, longer, prefix);
        assert forall|i: int| 0 <= i < narrow.len() implies all.contains(#[trigger] narrow[i]) by {
            if i < command_candidates(longer, entries.drop_last()).len() {
                assert(narrow[i] == command_candidates(longer, entries.drop_last())[i]);
                let j = choose|j: int| 0 <= j < less.len() && less[j] == narrow[i];
                assert(all[j] == narrow[i]);
            } else {
                assert(all[all.len() - 1] == narrow[i]);
            }
        }
    }
}

/// Typing more of the name of a file in the same directory only narrows what is offered.
pub proof fn law_typing_narrows_the_files(
    word: Seq<char>,
    longer: Seq<char>,
    entries: Seq<DirEntry>,
)
    requires
        has_prefix(longer, word),
        dir_part(longer) == dir_part(word),
    ensures
        forall|i: int|
            0 <= i < filename_candidates(longer, entries).len() ==> filename_candidates(
                word,
                entries,
            ).contains(#[trigger] filename_candidates(longer, entries)[i]),
    decreases entries.len(),
{
    if entries.len() > 0 {
        law_typing_narrows_the_files(word, longer, entries.drop_last());
        let less = filename_candidates(word, entries.drop_last());
        let all = filename_candidates(word, entries);
        let narrow = filename_candidates(longer, entries);
        lemma_file_part_prefix(word, longer);
        lemma_prefix_of_prefix(entries.last().name@, file_part(longer), file_part(word));
        assert forall|i: int| 0 <= i < narrow.len() implies all.contains(#[trigger] narrow[i]) by {
            if i < filename_candidates(longer, entries.drop_last()).len() {
                assert(narrow[i] == filename_candidates(longer, entries.drop_last())[i]);
                let j = choose|j: int| 0 <= j < less.len() && less[j] == narrow[i];
                assert(all[j] == narrow[i]);
            } else {
                assert(all[all.len() - 1] == narrow[i]);
            }
        }
    }
}

proof fn lemma_file_part_prefix(word: Seq<char>, longer: Seq<char>)
    requires
        has_prefix(longer, word),
        dir_part(longer) == dir_part(word),
    ensures
        has_prefix(file_part(longer), file_part(word)),
{
    lemma_after_last(word, '/');
    lemma_after_last(longer, '/');
    let k = after_last(word, '/');
    assert(dir_part(word).len() == k && dir_part(longer).len() == after_last(longer, '/'));
    let n = file_part(word).len() as int;
    assert forall|i: int| 0 <= i < n implies file_part(longer)[i] == file_part(word)[i] by {
        assert(longer.take(word.len() as int)[k + i] == word[k + i]);
    }
    assert(file_part(longer).take(n) =~= file_part(word));
}

/// A word of a list is offered exactly where it begins with what was typed, shown as it is and
/// with a blank after it, and the words are offered in the order of the list.
pub proof fn law_words_are_offered(
    words: Seq<Seq<char>>,
    prefix: Seq<char>,
    rest: Seq<char>,
    other: Seq<char>,
)
    ensures
        word_candidates(seq![], prefix) == Seq::<CandidateView>::empty(),
        word_candidates(words.push(prefix + rest), prefix) == word_candidates(words, prefix).push(
            CandidateView {
                display: prefix + rest,
                replacement: prefix + rest + seq![' '],
            },
        ),
        !(other.len() >= prefix.len() && other.take(prefix.len() as int) == prefix)
            ==> word_candidates(words.push(other), prefix) == word_candidates(words, prefix),
{
    reveal_strlit(" ");
    assert(" "@ =~= seq![' ']);
    assert(words.push(prefix + rest).drop_last() =~= words);
    assert(words.push(other).drop_last() =~= words);
    assert((prefix + rest).take(prefix.len() as int) =~= prefix);
}

/// A file can be run exactly where it is a regular file, and one of its three execute bits is set
/// if the system has permission bits.
pub proof fn law_executable(meta: FileMeta)
    ensures
        executable(meta) <==> meta.is_file && (meta.mode is Some ==> (meta.mode->0) & 0o111 != 0),
        runnable(Some(meta)) <==> executable(meta),
        !runnable(None),
{
}

/// The commands that are offered: of the nine builtins and then of the programs, those that begin
/// with what was typed. A program is a file that can be run; it is shown as it is and with a
/// blank after it.
pub proof fn law_commands_are_offered(
    prefix: Seq<char>,
    entries: Seq<ProgramEntry>,
    entry: ProgramEntry,
)
    ensures
        command_candidates(prefix, seq![]) == word_candidates(
            seq![
                "echo"@,
                "exit"@,
                "pwd"@,
                "cd"@,
                "type"@,
                "complete"@,
                "jobs"@,
                "history"@,
                "declare"@,
            ],
            prefix,
        ),
        command_candidates(prefix, entries.push(entry)) == command_candidates(prefix, entries) + (
        if entry.name@.len() >= prefix.len() && entry.name@.take(prefix.len() as int) == prefix
            && entry.meta is Some && executable(entry.meta->0) {
            seq![
                CandidateView { display: entry.name@, replacement: entry.name@ + seq![' '] },
            ]
        } else {
            seq![]
        }),
{
    reveal_strlit(" ");
    assert(" "@ =~= seq![' ']);
    assert(entries.push(entry).drop_last() =~= entries);
    let before = command_candidates(prefix, entries);
    assert(before + Seq::<CandidateView>::empty() =~= before);
    let c = whole_word(entry.name@);
    assert(before.push(c) =~= before + seq![c]);
}

/// A path is its directory part and its file part: the directory part is empty or ends with `/`,
/// and no `/` stands in the file part. There is only one way to part it so.
pub proof fn law_paths(dir: Seq<char>, file: Seq<char>)
    requires
        dir.len() > 0 ==> dir.last() == '/',
        !file.contains('/'),
    ensures
        dir_part(dir + file) == dir,
        file_part(dir + file) == file,
{
    let word = dir + file;
    lemma_after_last(word, '/');
    let k = after_last(word, '/');
    if k > dir.len() {
        assert(word[k - 1] == file[k - 1 - dir.len()]);
        assert(file.contains('/'));
    } else if k < dir.len() {
        assert(word[dir.len() - 1] == dir.last());
    }
    assert(dir_part(word) =~= dir);
    assert(file_part(word) =~= file);
}

/// What is offered for the directory entry: its name and, after the directory as it was typed, its
/// name again, with a `/` after both where it is a directory and a blank after the latter
/// otherwise.
pub open spec fn offer_of(dir: Seq<char>, entry: DirEntry) -> CandidateView {
    CandidateView {
        display: if entry.is_dir {
            entry.name@ + seq!['/']
        } else {
            entry.name@
        },
        replacement: dir + entry.name@ + (if entry.is_dir {
            seq!['/']
        } else {
            seq![' ']
        }),
    }
}

/// The entry has a name that begins with `file`.
pub open spec fn named_from(entry: DirEntry, file: Seq<char>) -> bool {
    entry.name@.len() >= file.len() && entry.name@.take(file.len() as int) == file
}

/// The files that are offered for a word with the directory part `dir` and the file part `file`
/// are the entries whose name begins with the file part, whatever the directory part is, in the
/// order of the entries.
pub proof fn law_files_are_offered(
    dir: Seq<char>,
    file: Seq<char>,
    entries: Seq<DirEntry>,
    entry: DirEntry,
)
    requires
        dir.len() > 0 ==> dir.last() == '/',
        !file.contains('/'),
    ensures
        filename_candidates(dir + file, seq![]) == Seq::<CandidateView>::empty(),
        filename_candidates(dir + file, entries.push(entry)) == filename_candidates(
            dir + file,
            entries,
        ) + (if named_from(entry, file) {
            seq![offer_of(dir, entry)]
        } else {
            seq![]
        }),
{
    reveal_strlit(" ");
    reveal_strlit("/");
    assert(" "@ =~= seq![' ']);
    assert("/"@ =~= seq!['/']);
    law_paths(dir, file);
    let word = dir + file;
    assert(entries.push(entry).drop_last() =~= entries);
    let before = filename_candidates(word, entries);
    assert(before + Seq::<CandidateView>::empty() =~= before);
    let c = path_candidate(word, entry);
    assert(c.display =~= offer_of(dir, entry).display);
    assert(c.replacement =~= offer_of(dir, entry).replacement);
    assert(before.push(c) =~= before + seq![c]);
}

/// The candidate is what is offered for one of the entries whose name begins with `file`.
pub open spec fn is_offer_for(
    dir: Seq<char>,
    file: Seq<char>,
    entries: Seq<DirEntry>,
    c: CandidateView,
) -> bool {
    exists|i: int|
        0 <= i < entries.len() && named_from(#[trigger] entries[i], file) && offer_of(
            dir,
            entries[i],
        ) == c
}

/// Every file whose name begins with the file part of the word is offered, whether the path is
/// absolute, nested or a name alone, and nothing else is.
pub proof fn law_every_file_is_offered(dir: Seq<char>, file: Seq<char>, entries: Seq<DirEntry>)
    requires
        dir.len() > 0 ==> dir.last() == '/',
        !file.contains('/'),
    ensures
        forall|i: int|
            0 <= i < entries.len() && named_from(#[trigger] entries[i], file)
                ==> filename_candidates(dir + file, entries).contains(offer_of(dir, entries[i])),
        forall|k: int|
            0 <= k < filename_candidates(dir + file, entries).len() ==> is_offer_for(
                dir,
                file,
                entries,
                #[trigger] filename_candidates(dir + file, entries)[k],
            ),
    decreases entries.len(),
{
    let word = dir + file;
    let all = filename_candidates(word, entries);
    if entries.len() > 0 {
        let less = entries.drop_last();
        let last = entries.last();
        law_every_file_is_offered(dir, file, less);
        law_files_are_offered(dir, file, less, last);
        assert(less.push(last) =~= entries);
        let before = filename_candidates(word, less);
        assert forall|i: int|
            0 <= i < entries.len() && named_from(#[trigger] entries[i], file) implies all.contains(
            offer_of(dir, entries[i]),
        ) by {
            if i < less.len() {
                assert(less[i] == entries[i]);
                let j = choose|j: int|
                    0 <= j < before.len() && before[j] == offer_of(dir, entries[i]);
                assert(all[j] == before[j]);
            } else {
                assert(all[before.len() as int] == offer_of(dir, last));
            }
        }
        assert forall|k: int| 0 <= k < all.len() implies is_offer_for(
            dir,
            file,
            entries,
            #[trigger] all[k],
        ) by {
            if k < before.len() {
                assert(all[k] == before[k]);
                assert(is_offer_for(dir, file, less, before[k]));
                let i = choose|i: int|
                    0 <= i < less.len() && named_from(#[trigger] less[i], file) && offer_of(
                        dir,
                        less[i],
                    ) == before[k];
                assert(entries[i] == less[i]);
            } else {
                assert(entries[entries.len() - 1] == last);
                assert(named_from(last, file));
            }
        }
    }
}

} // verus!
