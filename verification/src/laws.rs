//! Laws of the shell as a whole.
use crate::builtins::{
    builtin_name, complete_effect, declare_effect, law_echo, lemma_names_differ, type_text,
    OutputView,
};
use crate::chars::blank;
use crate::history::{
    all_saved, first_of_last, listing, unsaved, with_entry, with_lines, HistoryView,
};
use crate::lexer::line_words;
use crate::lines::{is_line, law_lines_read_back_what_was_written, lines, unlines};
use crate::numbers::{as_i32, as_usize};
use crate::pipeline::{
    bar_after_nothing, law_missing_commands, law_segments_rebuild_the_line, segments, with_bars,
    StageView,
};
use crate::redirect::{
    dangling, law_last_redirection_decides, law_no_operator_keeps_all_words, operator, split,
    RedirectView,
};
use crate::request::{before_cursor, first_word, last_word, request, word_index, RequestView};
use crate::shell::{
    builtin_effect, effect_result, line_action, words_action, ActionView, CommandView, EffectView,
    ShellView,
};
use crate::text::join;
use vstd::prelude::*;

verus! {

/// Words without a `|`, a redirection or a `&`.
pub open spec fn simple(words: Seq<Seq<char>>) -> bool {
    &&& words.len() > 0
    &&& forall|i: int|
        0 <= i < words.len() ==> operator(#[trigger] words[i]) is None && words[i] != "|"@
            && words[i] != "&"@
}

/// The action of running a command: the shell does it itself where it is a builtin.
pub open spec fn to_run(command: CommandView) -> ActionView {
    if builtin_name(command.words[0]) {
        ActionView::Builtin(command)
    } else {
        ActionView::Program(command)
    }
}

/// The literals that mark a pipeline, the background and a redirection differ.
proof fn lemma_marks()
    ensures
        "|"@ != "&"@,
        operator("&"@) is None,
        operator("|"@) is None,
        operator(">"@) is Some,
{
    reveal_strlit("|");
    reveal_strlit("&");
    reveal_strlit(">");
    reveal_strlit("1>");
    reveal_strlit(">>");
    reveal_strlit("1>>");
    reveal_strlit("2>");
    reveal_strlit("2>>");
    assert("|"@[0] != "&"@[0]);
    assert(">"@[0] == '>' && "&"@[0] == '&' && "|"@[0] == '|');
}

/// A simple line runs its words as they are, in the foreground and with no redirection.
pub proof fn law_simple_line_runs_its_words(words: Seq<Seq<char>>)
    requires
        simple(words),
    ensures
        words_action(words) == to_run(
            CommandView { words, background: false, stdout: None, stderr: None },
        ),
{
    if words.contains("|"@) {
        let i = choose|i: int| 0 <= i < words.len() && words[i] == "|"@;
        assert(operator(words[i]) is None);
    }
    assert(operator(words[words.len() - 1]) is None);
    law_no_operator_keeps_all_words(words);
}

/// A `&` at the end of a simple line puts the same command in the background.
pub proof fn law_ampersand_puts_in_background(words: Seq<Seq<char>>)
    requires
        simple(words),
    ensures
        words_action(words.push("&"@)) == to_run(
            CommandView { words, background: true, stdout: None, stderr: None },
        ),
{
    lemma_marks();
    let line = words.push("&"@);
    if line.contains("|"@) {
        let i = choose|i: int| 0 <= i < line.len() && line[i] == "|"@;
        assert(i < words.len());
        assert(operator(words[i]) is None);
    }
    assert(line.drop_last() =~= words);
    law_no_operator_keeps_all_words(words);
}

/// An operator and a file at the end of a simple line redirect an output of the same command.
pub proof fn law_redirection_keeps_the_command(
    words: Seq<Seq<char>>,
    op: Seq<char>,
    path: Seq<char>,
)
    requires
        simple(words),
        operator(op) is Some,
        path != "|"@,
        path != "&"@,
    ensures
        ({
            let file = Some(RedirectView { path, append: (operator(op)->0).append });
            words_action(words + seq![op, path]) == to_run(
                CommandView {
                    words,
                    background: false,
                    stdout: if (operator(op)->0).error {
                        None
                    } else {
                        file
                    },
                    stderr: if (operator(op)->0).error {
                        file
                    } else {
                        None
                    },
                },
            )
        }),
{
    lemma_marks();
    let line = words + seq![op, path];
    if line.contains("|"@) {
        let i = choose|i: int| 0 <= i < line.len() && line[i] == "|"@;
        if i < words.len() {
            assert(line[i] == words[i]);
            assert(operator(words[i]) is None);
        } else if i == words.len() {
            assert(line[i] == op);
        } else {
            assert(line[i] == path);
        }
    }
    assert(line.last() == path);
    lemma_not_dangling(words);
    law_no_operator_keeps_all_words(words);
    law_last_redirection_decides(words, op, path);
}

proof fn lemma_not_dangling(words: Seq<Seq<char>>)
    requires
        forall|i: int| 0 <= i < words.len() ==> operator(#[trigger] words[i]) is None,
    ensures
        !dangling(words),
    decreases words.len(),
{
    if words.len() > 0 {
        assert(operator(words[0]) is None);
        lemma_not_dangling(words.skip(1));
    }
}

/// A builtin changes nothing but its own: `declare` the variables, `complete` the completion
/// scripts, and the others nothing at all.
pub proof fn law_builtins_change_only_their_own(words: Seq<Seq<char>>, shell: ShellView)
    requires
        words.len() > 0,
        builtin_name(words[0]),
    ensures
        builtin_effect(words, shell).1.history == shell.history,
        builtin_effect(words, shell).1.jobs == shell.jobs,
        words[0] != "declare"@ ==> builtin_effect(words, shell).1.variables == shell.variables,
        words[0] != "complete"@ ==> builtin_effect(words, shell).1.scripts == shell.scripts,
{
}

/// `type` calls a name a builtin exactly where a line with that name is run by the shell itself.
pub proof fn law_type_knows_what_is_builtin(name: Seq<char>)
    requires
        simple(seq![name]),
    ensures
        type_text(name, None).0 <==> words_action(seq![name]) is Builtin,
{
    law_simple_line_runs_its_words(seq![name]);
}

/// The script that `complete -C` gives a command is the one that is asked for the arguments of
/// that command, with the command, the word and the word before it; after `complete -r` the
/// arguments are completed as files.
pub proof fn law_registered_script_is_asked(
    script: Seq<char>,
    scripts: Map<Seq<char>, Seq<char>>,
    line: Seq<char>,
    pos: int,
)
    requires
        word_index(line, pos) > 0,
    ensures
        ({
            let command = first_word(line);
            let head = before_cursor(line, pos);
            let k = word_index(line, pos);
            let set = complete_effect(seq!["complete"@, "-C"@, script, command], scripts).1;
            let gone = complete_effect(seq!["complete"@, "-r"@, command], set).1;
            &&& request(line, pos, set) == (RequestView::Script {
                script,
                command,
                word: head.skip(k),
                previous: last_word(head.take(k)),
                line,
                point: crate::numbers::decimal(pos as nat),
            })
            &&& request(line, pos, gone) == (RequestView::Filename { word: head.skip(k) })
        }),
{
    crate::builtins::law_completion_scripts_are_kept(script, first_word(line), scripts);
    reveal_strlit("-C");
    reveal_strlit("-r");
    assert("-C"@[1] == 'C' && "-r"@[1] == 'r');
}

/// `history -a` adds what was entered since the last time and nothing else: once that was
/// written there is nothing to add, and where it could not be written the same is left to add.
pub proof fn law_history_is_added_once(path: Seq<char>, shell: ShellView, reason: Seq<char>)
    requires
        0 <= shell.history.saved <= shell.history.entries.len(),
    ensures
        ({
            let words = seq!["history"@, "-a"@, path];
            let effect = builtin_effect(words, shell).0;
            let content = crate::lines::unlines(unsaved(shell.history));
            &&& effect == (EffectView::AppendHistory { path, content })
            &&& builtin_effect(words, effect_result(effect, None, shell).1).0 == (
            EffectView::AppendHistory { path, content: seq![] })
            &&& builtin_effect(words, effect_result(effect, Some(reason), shell).1).0 == effect
        }),
{
    reveal_strlit("-a");
    reveal_strlit("-r");
    reveal_strlit("-w");
    assert("-a"@[1] == 'a' && "-r"@[1] == 'r' && "-w"@[1] == 'w');
    lemma_names_differ();
    assert(unsaved(all_saved(shell.history)) =~= seq![]);
}

/// What is left to do for a builtin changes the state only where entries were added to a file:
/// the history then counts as saved, and its entries and all else stay.
pub proof fn law_effects_keep_the_state(
    effect: EffectView,
    failure: Option<Seq<char>>,
    shell: ShellView,
)
    ensures
        ({
            let after = effect_result(effect, failure, shell).1;
            &&& after.variables == shell.variables
            &&& after.scripts == shell.scripts
            &&& after.jobs == shell.jobs
            &&& after.history.entries == shell.history.entries
            &&& !(effect is AppendHistory && failure is None) ==> after == shell
        }),
{
}

/// The words of the commands of a pipeline.
pub open spec fn stage_words(stages: Seq<StageView>) -> Seq<Seq<Seq<char>>> {
    stages.map_values(|s: StageView| s.words)
}

/// A line that holds a `|` asks for a pipeline of all its commands: with the bars put back their
/// words are the words of the line, and none of them is empty or holds a bar. The first reads from
/// no pipe and the last writes to none, while all others read from the one before and write for
/// the one after. Where a bar begins or ends the line, or stands right after another, a command is
/// missing, and the line asks for a message alone.
pub proof fn law_a_bar_asks_for_a_pipeline(words: Seq<Seq<char>>)
    requires
        words.contains("|"@),
    ensures
        bar_after_nothing(words) || words.last() == "|"@ ==> words_action(words)
            == ActionView::Complain("syntax error near `|'\n"@),
        !bar_after_nothing(words) && words.last() != "|"@ ==> {
            &&& words_action(words) is Pipeline
            &&& with_bars(stage_words(words_action(words)->Pipeline_0)) == words
            &&& words_action(words)->Pipeline_0.len() > 1
            &&& forall|i: int|
                0 <= i < words_action(words)->Pipeline_0.len() ==> is_stage_at(
                    #[trigger] words_action(words)->Pipeline_0[i],
                    i,
                    words_action(words)->Pipeline_0.len() as int,
                )
        },
{
    law_missing_commands(words);
    law_segments_rebuild_the_line(words);
    let segs = segments(words);
    if !bar_after_nothing(words) && words.last() != "|"@ {
        let v = words_action(words)->Pipeline_0;
        assert(stage_words(v) =~= segs);
        if v.len() == 1 {
            assert(with_bars(segs) == segs[0]);
            assert(!segs[0].contains("|"@));
        }
        assert forall|i: int| 0 <= i < v.len() implies is_stage_at(
            #[trigger] v[i],
            i,
            v.len() as int,
        ) by {
            assert(segs[i].len() > 0 && !segs[i].contains("|"@));
        }
    }
}

/// The command at `i` of a pipeline of `n`: it has words and no bar among them, it is tied to its
/// neighbours, and the shell runs `echo`, `pwd` and `type` itself.
pub open spec fn is_stage_at(s: StageView, i: int, n: int) -> bool {
    &&& s.words.len() > 0
    &&& !s.words.contains("|"@)
    &&& s.reads_pipe <==> i != 0
    &&& s.writes_pipe <==> i != n - 1
    &&& s.builtin <==> s.words[0] == "echo"@ || s.words[0] == "pwd"@ || s.words[0] == "type"@
}

/// A line without a `|` asks for one command: the words and redirections that it is taken apart
/// into. A `&` at its end belongs to neither and puts the command in the background. The shell runs
/// a builtin itself, and anything else is a program. Where no word is left there is nothing to do.
pub proof fn law_a_line_asks_for_its_command(words: Seq<Seq<char>>)
    requires
        !words.contains("|"@),
        words.len() > 0 ==> words.last() != "&"@,
    ensures
        ({
            let s = split(words);
            let run = |background: bool|
                {
                    let command = CommandView {
                        words: s.args,
                        background,
                        stdout: s.stdout,
                        stderr: s.stderr,
                    };
                    if s.args.len() == 0 {
                        ActionView::Nothing
                    } else if builtin_name(s.args[0]) {
                        ActionView::Builtin(command)
                    } else {
                        ActionView::Program(command)
                    }
                };
            &&& words_action(words) == run(false)
            &&& words_action(words.push("&"@)) == run(true)
        }),
{
    lemma_marks();
    let line = words.push("&"@);
    if line.contains("|"@) {
        let i = choose|i: int| 0 <= i < line.len() && line[i] == "|"@;
        assert(words[i] == "|"@);
    }
    assert(line.drop_last() =~= words);
    assert(words.len() == 0 ==> split(words).args.len() == 0);
}

/// Of a second `&` only the last one puts a command in the background: the one before it is a word
/// like any other.
pub proof fn law_only_the_last_ampersand_counts(words: Seq<Seq<char>>)
    requires
        !words.contains("|"@),
    ensures
        ({
            let s = split(words.push("&"@));
            let command = CommandView {
                words: s.args,
                background: true,
                stdout: s.stdout,
                stderr: s.stderr,
            };
            words_action(words.push("&"@).push("&"@)) == (if s.args.len() == 0 {
                ActionView::Nothing
            } else {
                to_run(command)
            })
        }),
{
    lemma_marks();
    let once = words.push("&"@);
    let line = once.push("&"@);
    if line.contains("|"@) {
        let i = choose|i: int| 0 <= i < line.len() && line[i] == "|"@;
        assert(words[i] == "|"@);
    }
    assert(line.drop_last() =~= once);
}

/// A blank line is forgotten, and any other asks for what its words ask for.
pub proof fn law_lines_ask_for_what_their_words_do(
    input: Seq<char>,
    variables: Map<Seq<char>, Seq<char>>,
)
    ensures
        blank(input) ==> line_action(input, variables) is Forget,
        !blank(input) ==> line_action(input, variables) == words_action(
            line_words(input, variables),
        ),
        words_action(seq![]) is Nothing,
{
}

/// `exit` leaves all of the history for its file, whatever of it was saved before: read back it
/// gives every entry again, as long as they are single lines. It leaves with the code that its
/// first argument is, and with 0 where there is none or it is no number.
pub proof fn law_exit_saves_all_of_the_history(words: Seq<Seq<char>>, shell: ShellView)
    requires
        words.len() > 0,
        words[0] == "exit"@,
    ensures
        builtin_effect(words, shell).0 is Exit,
        builtin_effect(words, shell).0->Exit_content == unlines(shell.history.entries),
        (forall|i: int|
            0 <= i < shell.history.entries.len() ==> is_line(#[trigger] shell.history.entries[i]))
            ==> lines(builtin_effect(words, shell).0->Exit_content) == shell.history.entries,
        words.len() == 1 ==> builtin_effect(words, shell).0->code == 0,
        words.len() > 1 ==> builtin_effect(words, shell).0->code == (match as_i32(words[1]) {
            Some(n) => n,
            None => 0,
        }),
        builtin_effect(words, shell).1 == shell,
{
    if forall|i: int|
        0 <= i < shell.history.entries.len() ==> is_line(#[trigger] shell.history.entries[i]) {
        law_lines_read_back_what_was_written(shell.history.entries);
    }
}

/// The history after lines were entered, one after the other.
pub open spec fn entered(h: HistoryView, new: Seq<Seq<char>>) -> HistoryView
    decreases new.len(),
{
    if new.len() == 0 {
        h
    } else {
        with_entry(entered(h, new.drop_last()), new.last())
    }
}

proof fn lemma_entered(h: HistoryView, new: Seq<Seq<char>>)
    ensures
        entered(h, new).entries == h.entries + new,
        entered(h, new).saved == h.saved,
    decreases new.len(),
{
    if new.len() == 0 {
        assert(h.entries + new =~= h.entries);
    } else {
        lemma_entered(h, new.drop_last());
        assert(h.entries + new =~= (h.entries + new.drop_last()).push(new.last()));
    }
}

/// A session that loads a history file, takes up lines and is left with `exit` leaves a file with
/// the old lines followed by the new ones. What `history -a` adds in it are the new ones alone.
pub proof fn law_a_session_keeps_the_history(
    old_lines: Seq<Seq<char>>,
    new_lines: Seq<Seq<char>>,
    shell: ShellView,
    path: Seq<char>,
)
    requires
        forall|i: int| 0 <= i < old_lines.len() ==> is_line(#[trigger] old_lines[i]),
        forall|i: int| 0 <= i < new_lines.len() ==> is_line(#[trigger] new_lines[i]),
        shell.history == entered(
            all_saved(with_lines(HistoryView { entries: seq![], saved: 0 }, unlines(old_lines))),
            new_lines,
        ),
    ensures
        builtin_effect(seq!["exit"@], shell).0->Exit_content == unlines(old_lines + new_lines),
        lines(builtin_effect(seq!["exit"@], shell).0->Exit_content) == old_lines + new_lines,
        builtin_effect(seq!["history"@, "-w"@, path], shell).0->WriteHistory_content == unlines(
            old_lines + new_lines,
        ),
        builtin_effect(seq!["history"@, "-a"@, path], shell).0->AppendHistory_content == unlines(
            new_lines,
        ),
{
    let start = HistoryView { entries: seq![], saved: 0 };
    law_lines_read_back_what_was_written(old_lines);
    let loaded = all_saved(with_lines(start, unlines(old_lines)));
    assert(loaded.entries =~= old_lines);
    lemma_entered(loaded, new_lines);
    let all = old_lines + new_lines;
    assert(shell.history.entries =~= all);
    assert forall|i: int| 0 <= i < all.len() implies is_line(#[trigger] all[i]) by {
        if i < old_lines.len() {
            assert(all[i] == old_lines[i]);
        } else {
            assert(all[i] == new_lines[i - old_lines.len()]);
        }
    }
    law_exit_saves_all_of_the_history(seq!["exit"@], shell);
    assert(unsaved(shell.history) =~= new_lines);
    lemma_names_differ();
    lemma_history_flags();
}

/// The flags of `history` differ.
proof fn lemma_history_flags()
    ensures
        "-a"@ != "-r"@,
        "-a"@ != "-w"@,
        "-r"@ != "-w"@,
{
    reveal_strlit("-a");
    reveal_strlit("-r");
    reveal_strlit("-w");
    assert("-a"@[1] == 'a' && "-r"@[1] == 'r' && "-w"@[1] == 'w');
}

/// `cd` means the home directory exactly where it has no argument or its first argument is `~`;
/// any other argument, absolute or relative, is itself the directory to change to.
pub proof fn law_cd(words: Seq<Seq<char>>, shell: ShellView)
    requires
        words.len() > 0,
        words[0] == "cd"@,
    ensures
        builtin_effect(words, shell).1 == shell,
        builtin_effect(words, shell).0 is ChangeDirectory,
        builtin_effect(words, shell).0->home <==> words.len() == 1 || words[1] == "~"@,
        words.len() > 1 ==> builtin_effect(words, shell).0->arg == words[1],
        words.len() == 1 ==> builtin_effect(words, shell).0->arg == "~"@,
{
    lemma_names_differ();
}

/// What the other builtins leave to do, and that they change nothing: `echo` prints its arguments,
/// `pwd` asks for the directory and `jobs` for the jobs, and `type` tells of a builtin at once and
/// asks for the place of any other name.
pub proof fn law_builtins_without_state(words: Seq<Seq<char>>, shell: ShellView)
    requires
        words.len() > 0,
    ensures
        words[0] == "echo"@ ==> builtin_effect(words, shell) == (
            EffectView::Print(
                OutputView { out: join(words.skip(1), seq![' ']) + seq!['\n'], err: seq![] },
            ),
            shell,
        ),
        words[0] == "pwd"@ ==> builtin_effect(words, shell) == (EffectView::PrintDirectory, shell),
        words[0] == "jobs"@ ==> builtin_effect(words, shell) == (EffectView::ListJobs, shell),
        words[0] == "type"@ ==> ({
            let name = if words.len() > 1 {
                words[1]
            } else {
                seq![]
            };
            builtin_effect(words, shell) == (
                if builtin_name(name) {
                    EffectView::Print(
                        OutputView { out: name + " is a shell builtin\n"@, err: seq![] },
                    )
                } else {
                    EffectView::Locate { name }
                },
                shell,
            )
        }),
{
    lemma_names_differ();
    assert(words =~= seq![words[0]] + words.skip(1));
    law_echo(words[0], words.skip(1));
}

/// `complete` and `declare` print what they have to say and change their own table, as their
/// effects tell, and nothing else.
pub proof fn law_builtins_with_state(words: Seq<Seq<char>>, shell: ShellView)
    requires
        words.len() > 0,
    ensures
        words[0] == "complete"@ ==> builtin_effect(words, shell) == (
            EffectView::Print(complete_effect(words, shell.scripts).0),
            ShellView { scripts: complete_effect(words, shell.scripts).1, ..shell },
        ),
        words[0] == "declare"@ ==> builtin_effect(words, shell) == (
            EffectView::Print(declare_effect(words, shell.variables).0),
            ShellView { variables: declare_effect(words, shell.variables).1, ..shell },
        ),
{
    lemma_names_differ();
}

/// What `history` leaves to do: with `-r` and a file to read it, with `-w` and a file to write all
/// entries to it, with `-a` and a file to add those to it that were not saved; a flag without a
/// file does nothing. With a number it lists so many of the last entries, and otherwise all. The
/// state stays as it is.
pub proof fn law_history(words: Seq<Seq<char>>, shell: ShellView)
    requires
        words.len() > 0,
        words[0] == "history"@,
    ensures
        ({
            let (effect, after) = builtin_effect(words, shell);
            let entries = shell.history.entries;
            let n = entries.len() as int;
            let flag = words.len() > 1 && (words[1] == "-r"@ || words[1] == "-w"@ || words[1]
                == "-a"@);
            let number = words.len() > 1 && !flag && as_usize(words[1]) is Some;
            &&& after == shell
            &&& flag && words.len() == 2 ==> effect == EffectView::Print(
                OutputView { out: seq![], err: seq![] },
            )
            &&& words.len() > 2 && words[1] == "-r"@ ==> effect == (EffectView::ReadHistory {
                path: words[2],
            })
            &&& words.len() > 2 && words[1] == "-w"@ ==> effect == (EffectView::WriteHistory {
                path: words[2],
                content: unlines(entries),
            })
            &&& words.len() > 2 && words[1] == "-a"@ ==> effect == (EffectView::AppendHistory {
                path: words[2],
                content: unlines(entries.skip(shell.history.saved)),
            })
            &&& number ==> effect == EffectView::Print(
                OutputView {
                    out: listing(entries, first_of_last(entries, as_usize(words[1])->0), n),
                    err: seq![],
                },
            )
            &&& !flag && !number ==> effect == EffectView::Print(
                OutputView { out: listing(entries, 0, n), err: seq![] },
            )
        }),
{
    lemma_names_differ();
    lemma_history_flags();
}

/// What is printed of an effect that failed: `cd` names its argument, and a history file that could
/// not be written or added to is named with the reason. Nothing is printed of any other, nor of an
/// effect that did not fail. What was added to a file counts as saved.
pub proof fn law_outcomes_of_effects(
    effect: EffectView,
    reason: Seq<char>,
    failure: Option<Seq<char>>,
    shell: ShellView,
)
    ensures
        effect is ChangeDirectory ==> effect_result(effect, Some(reason), shell).0 == (OutputView {
            out: seq![],
            err: "cd: "@ + effect->arg + ": No such file or directory\n"@,
        }),
        effect is WriteHistory ==> effect_result(effect, Some(reason), shell).0 == (OutputView {
            out: seq![],
            err: "history: "@ + effect->WriteHistory_path + ": "@ + reason + "\n"@,
        }),
        effect is AppendHistory ==> effect_result(effect, Some(reason), shell).0 == (OutputView {
            out: seq![],
            err: "history: "@ + effect->AppendHistory_path + ": "@ + reason + "\n"@,
        }),
        effect !is ChangeDirectory && effect !is WriteHistory && effect !is AppendHistory
            ==> effect_result(effect, failure, shell) == (
            OutputView { out: seq![], err: seq![] },
            shell,
        ),
        effect_result(effect, None, shell).0 == (OutputView { out: seq![], err: seq![] }),
        effect is AppendHistory ==> effect_result(effect, None, shell).1.history.saved
            == shell.history.entries.len(),
{
}

} // verus!
