//! Redirections of standard output and standard error among the words of a command.
use crate::text::texts;
use vstd::prelude::*;

verus! {

/// A file that an output goes to.
pub struct Redirect {
    /// The file.
    pub path: String,
    /// Whether the output is added to what the file holds; it replaces that otherwise.
    pub append: bool,
}

/// The text of a `Redirect`.
pub struct RedirectView {
    /// The file.
    pub path: Seq<char>,
    /// Whether the output is added to what the file holds.
    pub append: bool,
}

impl View for Redirect {
    type V = RedirectView;

    open spec fn view(&self) -> RedirectView {
        RedirectView { path: self.path@, append: self.append }
    }
}

/// The view of a redirection that may be there.
pub open spec fn target(r: Option<Redirect>) -> Option<RedirectView> {
    match r {
        Some(r) => Some(r@),
        None => None,
    }
}

/// A command line taken apart: the words that are left, and where the outputs go.
pub struct Split {
    /// The words that are no redirection.
    pub args: Seq<Seq<char>>,
    /// Where standard output goes, if it is redirected.
    pub stdout: Option<RedirectView>,
    /// Where standard error goes, if it is redirected.
    pub stderr: Option<RedirectView>,
}

/// A redirection operator.
#[derive(Clone, Copy)]
pub struct Operator {
    /// Whether it is standard error that is redirected, not standard output.
    pub error: bool,
    /// Whether the output is added to what the file holds.
    pub append: bool,
}

/// The operator that a word is, if it is one: `>`, `1>`, `>>`, `1>>`, `2>` or `2>>`.
pub open spec fn operator(word: Seq<char>) -> Option<Operator> {
    if word == ">"@ || word == "1>"@ {
        Some(Operator { error: false, append: false })
    } else if word == ">>"@ || word == "1>>"@ {
        Some(Operator { error: false, append: true })
    } else if word == "2>"@ {
        Some(Operator { error: true, append: false })
    } else if word == "2>>"@ {
        Some(Operator { error: true, append: true })
    } else {
        None
    }
}

/// `split` with one output redirected anew.
pub open spec fn redirected(split: Split, op: Operator, path: Option<Seq<char>>) -> Split {
    let file = match path {
        Some(p) => Some(RedirectView { path: p, append: op.append }),
        None => None,
    };
    if op.error {
        Split { stderr: file, ..split }
    } else {
        Split { stdout: file, ..split }
    }
}

/// `tokens` taken apart after `done`: each operator takes the word that follows it as its
/// file, the last operator for an output decides, and one with no word after it takes the
/// redirection of its output away.
pub open spec fn split_after(tokens: Seq<Seq<char>>, done: Split) -> Split
    decreases tokens.len(),
{
    if tokens.len() == 0 {
        done
    } else {
        match operator(tokens[0]) {
            None => split_after(tokens.skip(1), Split { args: done.args.push(tokens[0]), ..done }),
            Some(op) => if tokens.len() == 1 {
                redirected(done, op, None)
            } else {
                split_after(tokens.skip(2), redirected(done, op, Some(tokens[1])))
            },
        }
    }
}

/// A command line before any of its words was read.
pub open spec fn unsplit() -> Split {
    Split { args: seq![], stdout: None, stderr: None }
}

/// A command line taken apart.
pub open spec fn split(tokens: Seq<Seq<char>>) -> Split {
    split_after(tokens, unsplit())
}

/// The operator that a word is, if it is one.
fn read_operator(word: &str) -> (r: Option<Operator>)
    ensures
        r == operator(word@),
{
    if str::eq(word, ">") || str::eq(word, "1>") {
        Some(Operator { error: false, append: false })
    } else if str::eq(word, ">>") || str::eq(word, "1>>") {
        Some(Operator { error: false, append: true })
    } else if str::eq(word, "2>") {
        Some(Operator { error: true, append: false })
    } else if str::eq(word, "2>>") {
        Some(Operator { error: true, append: true })
    } else {
        None
    }
}

/// Takes the redirections out of the words of a command: the words that are left, then the
/// file for standard output and the file for standard error.
pub fn split_redirect(tokens: Vec<String>) -> (r: (Vec<String>, Option<Redirect>, Option<Redirect>))
    ensures
        (Split { args: texts(r.0@), stdout: target(r.1), stderr: target(r.2) }) == split(
            texts(tokens@),
        ),
{
    let ghost all = texts(tokens@);
    let mut args: Vec<String> = Vec::new();
    let mut stdout_file: Option<Redirect> = None;
    let mut stderr_file: Option<Redirect> = None;
    let mut i: usize = 0;
    assert(all.skip(0) =~= all);
    assert(texts(args@) =~= seq![]);
    while i < tokens.len()
        invariant
            i <= tokens@.len(),
            all == texts(tokens@),
            split_after(
                all.skip(i as int),
                Split {
                    args: texts(args@),
                    stdout: target(stdout_file),
                    stderr: target(stderr_file),
                },
            ) == split(all),
        decreases tokens@.len() - i,
    {
        let ghost rest = all.skip(i as int);
        let ghost before = texts(args@);
        assert(rest[0] == tokens@[i as int]@);
        match read_operator(tokens[i].as_str()) {
            None => {
                args.push(tokens[i].clone());
                i = i + 1;
                assert(texts(args@) =~= before.push(rest[0]));
                assert(rest.skip(1) =~= all.skip(i as int));
            },
            Some(op) => {
                let file = if i + 1 < tokens.len() {
                    assert(rest[1] == tokens@[i + 1]@);
                    Some(Redirect { path: tokens[i + 1].clone(), append: op.append })
                } else {
                    None
                };
                if op.error {
                    stderr_file = file;
                } else {
                    stdout_file = file;
                }
                if i + 1 < tokens.len() {
                    i = i + 2;
                    assert(rest.skip(2) =~= all.skip(i as int));
                } else {
                    i = i + 1;
                    assert(all.skip(i as int).len() == 0);
                }
            },
        }
    }
    (args, stdout_file, stderr_file)
}

/// The last word of `tokens` is an operator that no file follows.
pub open spec fn dangling(tokens: Seq<Seq<char>>) -> bool
    decreases tokens.len(),
{
    if tokens.len() == 0 {
        false
    } else if operator(tokens[0]) is None {
        dangling(tokens.skip(1))
    } else {
        tokens.len() == 1 || dangling(tokens.skip(2))
    }
}

/// A command line without operators keeps all its words, and redirects nothing.
pub proof fn law_no_operator_keeps_all_words(tokens: Seq<Seq<char>>)
    requires
        forall|i: int| 0 <= i < tokens.len() ==> operator(#[trigger] tokens[i]) is None,
    ensures
        split(tokens) == (Split { args: tokens, stdout: None, stderr: None }),
{
    lemma_no_operator(tokens, unsplit());
    assert(Seq::<Seq<char>>::empty() + tokens =~= tokens);
}

proof fn lemma_no_operator(tokens: Seq<Seq<char>>, done: Split)
    requires
        forall|i: int| 0 <= i < tokens.len() ==> operator(#[trigger] tokens[i]) is None,
    ensures
        split_after(tokens, done) == (Split { args: done.args + tokens, ..done }),
    decreases tokens.len(),
{
    if tokens.len() == 0 {
        assert(done.args + tokens =~= done.args);
    } else {
        let next = Split { args: done.args.push(tokens[0]), ..done };
        assert(operator(tokens[0]) is None);
        lemma_no_operator(tokens.skip(1), next);
        assert(next.args + tokens.skip(1) =~= done.args + tokens);
    }
}

/// None of the words that are left is an operator.
pub proof fn law_no_operator_is_left(tokens: Seq<Seq<char>>)
    ensures
        forall|i: int|
            0 <= i < split(tokens).args.len() ==> operator(#[trigger] split(tokens).args[i]) is None,
{
    lemma_no_operator_is_left(tokens, unsplit());
}

proof fn lemma_no_operator_is_left(tokens: Seq<Seq<char>>, done: Split)
    requires
        forall|i: int| 0 <= i < done.args.len() ==> operator(#[trigger] done.args[i]) is None,
    ensures
        forall|i: int|
            0 <= i < split_after(tokens, done).args.len() ==> operator(
                #[trigger] split_after(tokens, done).args[i],
            ) is None,
    decreases tokens.len(),
{
    if tokens.len() > 0 {
        match operator(tokens[0]) {
            None => {
                lemma_no_operator_is_left(
                    tokens.skip(1),
                    Split { args: done.args.push(tokens[0]), ..done },
                );
            },
            Some(op) => {
                if tokens.len() > 1 {
                    lemma_no_operator_is_left(tokens.skip(2), redirected(done, op, Some(tokens[1])));
                }
            },
        }
    }
}

/// An operator and a file at the end of a line redirect its output to that file, whatever
/// was said of that output before, and leave the words and the other output as they were.
pub proof fn law_last_redirection_decides(
    tokens: Seq<Seq<char>>,
    word: Seq<char>,
    path: Seq<char>,
)
    requires
        !dangling(tokens),
        operator(word) is Some,
    ensures
        split(tokens + seq![word, path]) == redirected(
            split(tokens),
            operator(word)->0,
            Some(path),
        ),
{
    lemma_last_redirection(tokens, word, path, unsplit());
}

proof fn lemma_last_redirection(
    tokens: Seq<Seq<char>>,
    word: Seq<char>,
    path: Seq<char>,
    done: Split,
)
    requires
        !dangling(tokens),
        operator(word) is Some,
    ensures
        split_after(tokens + seq![word, path], done) == redirected(
            split_after(tokens, done),
            operator(word)->0,
            Some(path),
        ),
    decreases tokens.len(),
{
    let all = tokens + seq![word, path];
    if tokens.len() == 0 {
        assert(all =~= seq![word, path]);
        assert(all.skip(2) =~= seq![]);
        let last = redirected(done, operator(word)->0, Some(path));
        assert(split_after(all.skip(2), last) == last);
    } else {
        assert(all[0] == tokens[0]);
        match operator(tokens[0]) {
            None => {
                assert(all.skip(1) =~= tokens.skip(1) + seq![word, path]);
                lemma_last_redirection(
                    tokens.skip(1),
                    word,
                    path,
                    Split { args: done.args.push(tokens[0]), ..done },
                );
            },
            Some(op) => {
                assert(all[1] == tokens[1]);
                assert(all.skip(2) =~= tokens.skip(2) + seq![word, path]);
                lemma_last_redirection(
                    tokens.skip(2),
                    word,
                    path,
                    redirected(done, op, Some(tokens[1])),
                );
            },
        }
    }
}

/// `first` with the words of `second` after its own, and with each output that `second`
/// redirects going where `second` has it.
pub open spec fn followed_by(first: Split, second: Split) -> Split {
    Split {
        args: first.args + second.args,
        stdout: if second.stdout is Some {
            second.stdout
        } else {
            first.stdout
        },
        stderr: if second.stderr is Some {
            second.stderr
        } else {
            first.stderr
        },
    }
}

/// Of two command lines one after the other, in which every operator has its file, the words
/// are those of both, and the later redirection of an output decides.
pub proof fn law_redirections_of_joined_lines(a: Seq<Seq<char>>, b: Seq<Seq<char>>)
    requires
        !dangling(a),
        !dangling(b),
    ensures
        split(a + b) == followed_by(split(a), split(b)),
{
    lemma_split_in_steps(a, b, unsplit());
    lemma_split_from(b, split(a), unsplit());
    let first = split(a);
    assert(followed_by(first, unsplit()).args =~= first.args);
}

proof fn lemma_split_in_steps(a: Seq<Seq<char>>, b: Seq<Seq<char>>, done: Split)
    requires
        !dangling(a),
    ensures
        split_after(a + b, done) == split_after(b, split_after(a, done)),
    decreases a.len(),
{
    let all = a + b;
    if a.len() == 0 {
        assert(all =~= b);
    } else {
        assert(all[0] == a[0]);
        match operator(a[0]) {
            None => {
                assert(all.skip(1) =~= a.skip(1) + b);
                lemma_split_in_steps(
                    a.skip(1),
                    b,
                    Split { args: done.args.push(a[0]), ..done },
                );
            },
            Some(op) => {
                assert(all[1] == a[1]);
                assert(all.skip(2) =~= a.skip(2) + b);
                lemma_split_in_steps(a.skip(2), b, redirected(done, op, Some(a[1])));
            },
        }
    }
}

proof fn lemma_split_from(tokens: Seq<Seq<char>>, first: Split, done: Split)
    requires
        !dangling(tokens),
    ensures
        split_after(tokens, followed_by(first, done)) == followed_by(
            first,
            split_after(tokens, done),
        ),
    decreases tokens.len(),
{
    if tokens.len() > 0 {
        match operator(tokens[0]) {
            None => {
                let next = Split { args: done.args.push(tokens[0]), ..done };
                lemma_split_from(tokens.skip(1), first, next);
                assert(followed_by(first, next).args =~= followed_by(first, done).args.push(
                    tokens[0],
                ));
            },
            Some(op) => {
                lemma_split_from(tokens.skip(2), first, redirected(done, op, Some(tokens[1])));
            },
        }
    }
}

/// `at` says where each of the words `picked` stands among `tokens`, in their order.
pub open spec fn picks(tokens: Seq<Seq<char>>, at: Seq<int>, picked: Seq<Seq<char>>) -> bool {
    &&& at.len() == picked.len()
    &&& forall|i: int| 0 <= i < at.len() ==> 0 <= #[trigger] at[i] < tokens.len()
    &&& forall|i: int| 0 <= i < at.len() ==> picked[i] == tokens[#[trigger] at[i]]
    &&& forall|i: int, j: int| 0 <= i < j < at.len() ==> #[trigger] at[i] < #[trigger] at[j]
}

/// The words that are left are words of the line, in the order in which they stand there.
pub proof fn law_words_left_keep_their_order(tokens: Seq<Seq<char>>) -> (at: Seq<int>)
    ensures
        picks(tokens, at, split(tokens).args),
{
    assert(tokens.skip(0) =~= tokens);
    lemma_words_left(tokens, 0, unsplit(), seq![])
}

proof fn lemma_words_left(
    tokens: Seq<Seq<char>>,
    k: int,
    done: Split,
    at: Seq<int>,
) -> (all: Seq<int>)
    requires
        0 <= k <= tokens.len(),
        picks(tokens.take(k), at, done.args),
    ensures
        picks(tokens, all, split_after(tokens.skip(k), done).args),
    decreases tokens.len() - k,
{
    let rest = tokens.skip(k);
    if rest.len() == 0 {
        assert(tokens.take(k) =~= tokens);
        at
    } else {
        match operator(rest[0]) {
            None => {
                let next = Split { args: done.args.push(rest[0]), ..done };
                assert(rest.skip(1) =~= tokens.skip(k + 1));
                assert(forall|i: int| 0 <= i < k ==> tokens.take(k + 1)[i] == tokens.take(k)[i]);
                lemma_words_left(tokens, k + 1, next, at.push(k))
            },
            Some(op) => if rest.len() == 1 {
                assert(forall|i: int| 0 <= i < k ==> tokens.take(k)[i] == tokens[i]);
                at
            } else {
                assert(rest.skip(2) =~= tokens.skip(k + 2));
                assert(forall|i: int| 0 <= i < k ==> tokens.take(k + 2)[i] == tokens.take(k)[i]);
                lemma_words_left(tokens, k + 2, redirected(done, op, Some(rest[1])), at)
            },
        }
    }
}

/// The operators: `>` and `1>` redirect standard output, `2>` standard error, and the same with
/// `>>` add to the file. No other word is one.
pub proof fn law_operators(word: Seq<char>)
    ensures
        operator(">"@) == Some(Operator { error: false, append: false }),
        operator("1>"@) == Some(Operator { error: false, append: false }),
        operator(">>"@) == Some(Operator { error: false, append: true }),
        operator("1>>"@) == Some(Operator { error: false, append: true }),
        operator("2>"@) == Some(Operator { error: true, append: false }),
        operator("2>>"@) == Some(Operator { error: true, append: true }),
        operator(word) is Some ==> word == ">"@ || word == "1>"@ || word == ">>"@ || word == "1>>"@
            || word == "2>"@ || word == "2>>"@,
{
    reveal_strlit(">");
    reveal_strlit("1>");
    reveal_strlit(">>");
    reveal_strlit("1>>");
    reveal_strlit("2>");
    reveal_strlit("2>>");
    assert(">"@.len() == 1 && "1>"@.len() == 2 && ">>"@.len() == 2);
    assert("1>>"@.len() == 3 && "2>"@.len() == 2 && "2>>"@.len() == 3);
    assert("1>"@[0] == '1' && ">>"@[0] == '>' && "2>"@[0] == '2');
    assert("1>>"@[0] == '1' && "2>>"@[0] == '2');
}

/// How a command line is taken apart, word by word from its end: a word that is no operator is
/// kept after the others; an operator and a word redirect one output to that file, which is added
/// to where the operator says so, and leave the rest; an operator at the end takes the
/// redirection of its output away.
pub proof fn law_split(tokens: Seq<Seq<char>>, word: Seq<char>, op: Seq<char>)
    requires
        !dangling(tokens),
        operator(op) is Some,
    ensures
        split(seq![]) == (Split { args: seq![], stdout: None, stderr: None }),
        operator(word) is None ==> split(tokens.push(word)) == (Split {
            args: split(tokens).args.push(word),
            stdout: split(tokens).stdout,
            stderr: split(tokens).stderr,
        }),
        split(tokens + seq![op, word]) == (Split {
            args: split(tokens).args,
            stdout: if (operator(op)->0).error {
                split(tokens).stdout
            } else {
                Some(RedirectView { path: word, append: (operator(op)->0).append })
            },
            stderr: if (operator(op)->0).error {
                Some(RedirectView { path: word, append: (operator(op)->0).append })
            } else {
                split(tokens).stderr
            },
        }),
        split(tokens.push(op)) == (Split {
            args: split(tokens).args,
            stdout: if (operator(op)->0).error {
                split(tokens).stdout
            } else {
                None
            },
            stderr: if (operator(op)->0).error {
                None
            } else {
                split(tokens).stderr
            },
        }),
{
    law_last_redirection_decides(tokens, op, word);
    assert(tokens.push(word) =~= tokens + seq![word]);
    lemma_split_in_steps(tokens, seq![word], unsplit());
    if operator(word) is None {
        let done = split(tokens);
        let next = Split { args: done.args.push(word), ..done };
        assert(seq![word].skip(1) =~= seq![]);
        assert(split_after(seq![word].skip(1), next) == next);
    }
    assert(tokens.push(op) =~= tokens + seq![op]);
    lemma_split_in_steps(tokens, seq![op], unsplit());
}

/// A line is without a dangling operator where its operators are taken up, from the front, each
/// with a word after it.
pub proof fn law_dangling(tokens: Seq<Seq<char>>, word: Seq<char>, op: Seq<char>)
    requires
        operator(op) is Some,
    ensures
        !dangling(seq![]),
        dangling(seq![op]),
        operator(word) is None ==> dangling(seq![word] + tokens) == dangling(tokens),
        dangling(seq![op, word] + tokens) == dangling(tokens),
{
    assert((seq![word] + tokens).skip(1) =~= tokens);
    assert((seq![op, word] + tokens).skip(2) =~= tokens);
}

} // verus!
