//! The shell between its input and its effects: what a line asks for, what a builtin does, and
//! how the state changes with it.
use crate::builtins::{
    asked_type, builtin_name, complains, complaint, complete, complete_effect, declare,
    declare_effect, echo, echo_text, is_builtin, no_output, output, print_type, says, silent,
    text_of, type_output, type_target, Output, OutputView,
};
use crate::chars::{blank, whitespace};
use crate::history::{
    all_saved, first_of_last, listing, unsaved, with_entry, with_lines, History, HistoryView,
};
use crate::jobs::{is_next_number, report, running, slot, started, JobView, Jobs};
use crate::lexer::{line_words, tokenize};
use crate::lines::unlines;
use crate::messages::{cd_failed, history_failed};
use crate::numbers::{as_i32, as_usize, decimal, decimal_of, parse_i32, parse_usize};
use crate::pipeline::{
    plan_pipeline, stage_views, stages, syntax_error, well_formed, Stage, StageView,
};
use crate::redirect::{split, split_redirect, target, Redirect, RedirectView};
use crate::table::Table;
use crate::text::{chars_of, contains, join, join_from, texts};
use vstd::prelude::*;
use vstd::string::*;

verus! {

/// A command with its arguments and redirections.
pub struct Command {
    /// The command and its arguments.
    pub words: Vec<String>,
    /// Whether it runs in the background.
    pub background: bool,
    /// Where its standard output goes, if it is redirected.
    pub stdout: Option<Redirect>,
    /// Where its standard error goes, if it is redirected.
    pub stderr: Option<Redirect>,
}

/// The content of a `Command`.
pub struct CommandView {
    /// The command and its arguments.
    pub words: Seq<Seq<char>>,
    /// Whether it runs in the background.
    pub background: bool,
    /// Where its standard output goes, if it is redirected.
    pub stdout: Option<RedirectView>,
    /// Where its standard error goes, if it is redirected.
    pub stderr: Option<RedirectView>,
}

impl View for Command {
    type V = CommandView;

    open spec fn view(&self) -> CommandView {
        CommandView {
            words: texts(self.words@),
            background: self.background,
            stdout: target(self.stdout),
            stderr: target(self.stderr),
        }
    }
}

/// What an input line asks for.
pub enum Action {
    /// Nothing: the line is blank, and is forgotten.
    Forget,
    /// Nothing: the line has no command.
    Nothing,
    /// A message on standard error.
    Complain(String),
    /// A pipeline.
    Pipeline(Vec<Stage>),
    /// A command that the shell runs itself, once its redirections are opened.
    Builtin(Command),
    /// A program.
    Program(Command),
}

/// The content of an `Action`.
pub enum ActionView {
    /// Nothing, for a blank line.
    Forget,
    /// Nothing, for a line without a command.
    Nothing,
    /// A message on standard error.
    Complain(Seq<char>),
    /// A pipeline.
    Pipeline(Seq<StageView>),
    /// A command that the shell runs itself.
    Builtin(CommandView),
    /// A program.
    Program(CommandView),
}

impl View for Action {
    type V = ActionView;

    open spec fn view(&self) -> ActionView {
        match *self {
            Action::Forget => ActionView::Forget,
            Action::Nothing => ActionView::Nothing,
            Action::Complain(text) => ActionView::Complain(text@),
            Action::Pipeline(v) => ActionView::Pipeline(stage_views(v@)),
            Action::Builtin(c) => ActionView::Builtin(c@),
            Action::Program(c) => ActionView::Program(c@),
        }
    }
}

/// What is left to do for a builtin.
pub enum Effect {
    /// To print.
    Print(Output),
    /// To save the history to its file and leave the shell.
    Exit {
        /// The exit code.
        code: i32,
        /// What the history file is to hold.
        content: String,
    },
    /// To print the current directory.
    PrintDirectory,
    /// To change the current directory.
    ChangeDirectory {
        /// The argument, `~` where none was given.
        arg: String,
        /// Whether it is the home directory that is meant, not the argument.
        home: bool,
    },
    /// To find out which jobs are done and list them all.
    ListJobs,
    /// To find the program of this name and tell of it.
    Locate {
        /// The name.
        name: String,
    },
    /// To take the lines of a file into the history.
    ReadHistory {
        /// The file.
        path: String,
    },
    /// To write the history to a file.
    WriteHistory {
        /// The file.
        path: String,
        /// What it is to hold.
        content: String,
    },
    /// To add what was not saved yet to a file.
    AppendHistory {
        /// The file.
        path: String,
        /// What is to be added.
        content: String,
    },
}

/// The content of an `Effect`.
pub enum EffectView {
    /// To print.
    Print(OutputView),
    /// To save the history and leave the shell.
    Exit {
        /// The exit code.
        code: int,
        /// What the history file is to hold.
        content: Seq<char>,
    },
    /// To print the current directory.
    PrintDirectory,
    /// To change the current directory.
    ChangeDirectory {
        /// The argument.
        arg: Seq<char>,
        /// Whether it is the home directory that is meant.
        home: bool,
    },
    /// To list the jobs.
    ListJobs,
    /// To find the program of this name and tell of it.
    Locate {
        /// The name.
        name: Seq<char>,
    },
    /// To take the lines of a file into the history.
    ReadHistory {
        /// The file.
        path: Seq<char>,
    },
    /// To write the history to a file.
    WriteHistory {
        /// The file.
        path: Seq<char>,
        /// What it is to hold.
        content: Seq<char>,
    },
    /// To add what was not saved yet to a file.
    AppendHistory {
        /// The file.
        path: Seq<char>,
        /// What is to be added.
        content: Seq<char>,
    },
}

impl View for Effect {
    type V = EffectView;

    open spec fn view(&self) -> EffectView {
        match *self {
            Effect::Print(o) => EffectView::Print(o@),
            Effect::Exit { code, content } => {
                EffectView::Exit { code: code as int, content: content@ }
            },
            Effect::PrintDirectory => EffectView::PrintDirectory,
            Effect::ChangeDirectory { arg, home } => {
                EffectView::ChangeDirectory { arg: arg@, home }
            },
            Effect::ListJobs => EffectView::ListJobs,
            Effect::Locate { name } => EffectView::Locate { name: name@ },
            Effect::ReadHistory { path } => EffectView::ReadHistory { path: path@ },
            Effect::WriteHistory { path, content } => {
                EffectView::WriteHistory { path: path@, content: content@ }
            },
            Effect::AppendHistory { path, content } => {
                EffectView::AppendHistory { path: path@, content: content@ }
            },
        }
    }
}

/// The state of the shell.
pub struct Shell {
    variables: Table,
    scripts: Table,
    history: History,
    jobs: Jobs,
}

/// The content of a `Shell`.
pub struct ShellView {
    /// The variables.
    pub variables: Map<Seq<char>, Seq<char>>,
    /// The completion script of each command that has one.
    pub scripts: Map<Seq<char>, Seq<char>>,
    /// The history.
    pub history: HistoryView,
    /// The jobs in the background.
    pub jobs: Seq<JobView>,
}

impl View for Shell {
    type V = ShellView;

    closed spec fn view(&self) -> ShellView {
        ShellView {
            variables: self.variables@,
            scripts: self.scripts@,
            history: self.history@,
            jobs: self.jobs@,
        }
    }
}

/// The words of a command without the `&` that puts it in the background.
pub open spec fn foreground_words(words: Seq<Seq<char>>) -> Seq<Seq<char>> {
    if words.last() == "&"@ {
        words.drop_last()
    } else {
        words
    }
}

/// What the words of a line ask for.
pub open spec fn words_action(words: Seq<Seq<char>>) -> ActionView {
    if words.len() == 0 {
        ActionView::Nothing
    } else if words.contains("|"@) {
        if well_formed(words) {
            ActionView::Pipeline(stages(words))
        } else {
            ActionView::Complain(syntax_error())
        }
    } else {
        let s = split(foreground_words(words));
        let command = CommandView {
            words: s.args,
            background: words.last() == "&"@,
            stdout: s.stdout,
            stderr: s.stderr,
        };
        if s.args.len() == 0 {
            ActionView::Nothing
        } else if builtin_name(s.args[0]) {
            ActionView::Builtin(command)
        } else {
            ActionView::Program(command)
        }
    }
}

/// What an input line asks for: nothing where it is blank.
pub open spec fn line_action(
    input: Seq<char>,
    variables: Map<Seq<char>, Seq<char>>,
) -> ActionView {
    if blank(input) {
        ActionView::Forget
    } else {
        words_action(line_words(input, variables))
    }
}

/// The exit code that `exit` is given: 0 where it is given none, or no number.
pub open spec fn exit_code(words: Seq<Seq<char>>) -> int {
    if words.len() > 1 && as_i32(words[1]) is Some {
        as_i32(words[1])->0
    } else {
        0
    }
}

/// What is left to do for `cd`: without an argument, and for `~`, it is the home directory
/// that is meant.
pub open spec fn cd_effect(words: Seq<Seq<char>>) -> EffectView {
    let arg = if words.len() > 1 {
        words[1]
    } else {
        "~"@
    };
    EffectView::ChangeDirectory { arg, home: arg == "~"@ }
}

/// What is left to do for `type`.
pub open spec fn type_effect(words: Seq<Seq<char>>) -> EffectView {
    let name = type_target(words);
    if builtin_name(name) {
        EffectView::Print(type_output(name, None))
    } else {
        EffectView::Locate { name }
    }
}

/// What is left to do for `history`: with `-r`, `-w` and `-a` it works on a file, with a number
/// it lists that many entries, and otherwise all.
pub open spec fn history_effect(words: Seq<Seq<char>>, history: HistoryView) -> EffectView {
    let entries = history.entries;
    let n = entries.len() as int;
    if words.len() > 1 && (words[1] == "-r"@ || words[1] == "-w"@ || words[1] == "-a"@) {
        if words.len() == 2 {
            EffectView::Print(silent())
        } else if words[1] == "-r"@ {
            EffectView::ReadHistory { path: words[2] }
        } else if words[1] == "-w"@ {
            EffectView::WriteHistory { path: words[2], content: unlines(entries) }
        } else {
            EffectView::AppendHistory { path: words[2], content: unlines(unsaved(history)) }
        }
    } else if words.len() > 1 && as_usize(words[1]) is Some {
        let from = first_of_last(entries, as_usize(words[1])->0);
        EffectView::Print(says(listing(entries, from, n)))
    } else {
        EffectView::Print(says(listing(entries, 0, n)))
    }
}

/// What is left to do for a builtin, and the state after it.
pub open spec fn builtin_effect(words: Seq<Seq<char>>, shell: ShellView) -> (
    EffectView,
    ShellView,
) {
    let name = words[0];
    if name == "exit"@ {
        let content = unlines(shell.history.entries);
        (EffectView::Exit { code: exit_code(words), content }, shell)
    } else if name == "echo"@ {
        (EffectView::Print(says(echo_text(words))), shell)
    } else if name == "pwd"@ {
        (EffectView::PrintDirectory, shell)
    } else if name == "cd"@ {
        (cd_effect(words), shell)
    } else if name == "type"@ {
        (type_effect(words), shell)
    } else if name == "complete"@ {
        let (o, scripts) = complete_effect(words, shell.scripts);
        (EffectView::Print(o), ShellView { scripts, ..shell })
    } else if name == "jobs"@ {
        (EffectView::ListJobs, shell)
    } else if name == "history"@ {
        (history_effect(words, shell.history), shell)
    } else {
        let (o, variables) = declare_effect(words, shell.variables);
        (EffectView::Print(o), ShellView { variables, ..shell })
    }
}

/// What is printed once an effect was carried out, or failed for a reason, and the state after
/// it: `cd` and the history files tell of their failures, and what was added to a file counts as
/// saved.
pub open spec fn effect_result(
    effect: EffectView,
    failure: Option<Seq<char>>,
    shell: ShellView,
) -> (OutputView, ShellView) {
    match (effect, failure) {
        (EffectView::ChangeDirectory { arg, .. }, Some(_)) => {
            (complains("cd: "@ + arg + ": No such file or directory\n"@), shell)
        },
        (EffectView::WriteHistory { path, .. }, Some(reason)) => {
            (complains("history: "@ + path + ": "@ + reason + "\n"@), shell)
        },
        (EffectView::AppendHistory { path, .. }, Some(reason)) => {
            (complains("history: "@ + path + ": "@ + reason + "\n"@), shell)
        },
        (EffectView::AppendHistory { .. }, None) => {
            (silent(), ShellView { history: all_saved(shell.history), ..shell })
        },
        _ => (silent(), shell),
    }
}

/// Whether a line is blank.
pub fn is_blank(s: &str) -> (r: bool)
    ensures
        r == blank(s@),
{
    let chars = chars_of(s);
    let mut i: usize = 0;
    while i < chars.len()
        invariant
            i <= chars@.len(),
            chars@ == s@,
            forall|j: int| 0 <= j < i ==> whitespace(s@[j]),
        decreases chars@.len() - i,
    {
        if !chars[i].is_whitespace() {
            assert(!whitespace(s@[i as int]));
            return false;
        }
        i = i + 1;
    }
    true
}

/// What the words of a line ask for.
pub fn plan(tokens: Vec<String>) -> (r: Action)
    ensures
        r@ == words_action(texts(tokens@)),
{
    let ghost words = texts(tokens@);
    let n: usize = tokens.len();
    if n == 0 {
        return Action::Nothing;
    }
    if contains(&tokens, "|") {
        return match plan_pipeline(&tokens) {
            Ok(v) => Action::Pipeline(v),
            Err(text) => Action::Complain(text),
        };
    }
    assert(words.last() == tokens@[n - 1]@);
    let background = str::eq(tokens[n - 1].as_str(), "&");
    let mut rest = tokens;
    if background {
        let _ = rest.pop();
    }
    assert(texts(rest@) =~= foreground_words(words));
    let (args, stdout, stderr) = split_redirect(rest);
    if args.len() == 0 {
        return Action::Nothing;
    }
    assert(texts(args@)[0] == args@[0]@);
    let builtin = is_builtin(args[0].as_str());
    let command = Command { words: args, background, stdout, stderr };
    if builtin {
        Action::Builtin(command)
    } else {
        Action::Program(command)
    }
}

impl Shell {
    /// What every step keeps: the history and the jobs are well-formed.
    pub closed spec fn wf(&self) -> bool {
        self.history.wf() && self.jobs.wf()
    }

    /// A shell that was just started.
    pub fn new() -> (s: Shell)
        ensures
            s.wf(),
            s@ == (ShellView {
                variables: Map::empty(),
                scripts: Map::empty(),
                history: HistoryView { entries: seq![], saved: 0 },
                jobs: seq![],
            }),
    {
        Shell {
            variables: Table::new(),
            scripts: Table::new(),
            history: History::new(),
            jobs: Jobs::new(),
        }
    }

    /// The completion scripts.
    pub fn scripts(&self) -> (r: &Table)
        ensures
            r@ == self@.scripts,
    {
        &self.scripts
    }

    /// The entries of the history, the oldest first.
    pub fn history(&self) -> (r: &Vec<String>)
        ensures
            texts(r@) == self@.history.entries,
    {
        self.history.entries()
    }

    /// What the history file is to hold.
    pub fn history_content(&self) -> (r: String)
        ensures
            r@ == unlines(self@.history.entries),
    {
        self.history.content()
    }

    /// Takes up the history file, given what it holds if it could be read. Its lines count as
    /// saved.
    pub fn load_history(&mut self, content: &Option<String>)
        requires
            old(self).wf(),
        ensures
            final(self).wf(),
            final(self)@ == (ShellView {
                history: all_saved(
                    match *content {
                        Some(c) => with_lines(old(self)@.history, c@),
                        None => old(self)@.history,
                    },
                ),
                ..old(self)@
            }),
    {
        if let Some(c) = content {
            self.history.read(c.as_str());
        }
        self.history.mark_saved();
    }

    /// Takes up an input line: what it asks for. It goes into the history unless it is blank.
    pub fn submit(&mut self, input: &str) -> (r: Action)
        requires
            old(self).wf(),
        ensures
            final(self).wf(),
            r@ == line_action(input@, old(self)@.variables),
            final(self)@ == (if blank(input@) {
                old(self)@
            } else {
                ShellView { history: with_entry(old(self)@.history, input@), ..old(self)@ }
            }),
    {
        if is_blank(input) {
            return Action::Forget;
        }
        self.history.push(input);
        plan(tokenize(input, &self.variables))
    }

    /// Runs a builtin as far as the shell alone can: what is left to do for it.
    pub fn run(&mut self, words: &Vec<String>) -> (r: Effect)
        requires
            old(self).wf(),
            words@.len() > 0,
            builtin_name(words@[0]@),
        ensures
            final(self).wf(),
            r@ == builtin_effect(texts(words@), old(self)@).0,
            final(self)@ == builtin_effect(texts(words@), old(self)@).1,
    {
        let name = words[0].as_str();
        assert(texts(words@)[0] == name@);
        if str::eq(name, "exit") {
            Effect::Exit { code: read_exit_code(words), content: self.history.content() }
        } else if str::eq(name, "echo") {
            Effect::Print(output(echo(words)))
        } else if str::eq(name, "pwd") {
            Effect::PrintDirectory
        } else if str::eq(name, "cd") {
            plan_cd(words)
        } else if str::eq(name, "type") {
            plan_type(words)
        } else if str::eq(name, "complete") {
            Effect::Print(complete(words, &mut self.scripts))
        } else if str::eq(name, "jobs") {
            Effect::ListJobs
        } else if str::eq(name, "history") {
            plan_history(words, &self.history)
        } else {
            Effect::Print(declare(words, &mut self.variables))
        }
    }

    /// Takes the lines of a file into the history.
    pub fn read_history(&mut self, content: &str)
        requires
            old(self).wf(),
        ensures
            final(self).wf(),
            final(self)@ == (ShellView {
                history: with_lines(old(self)@.history, content@),
                ..old(self)@
            }),
    {
        self.history.read(content);
    }

    /// Takes up how carrying out an effect went, given the reason where it failed: what is
    /// printed of it.
    pub fn effect_done(&mut self, effect: &Effect, failure: &Option<String>) -> (r: Output)
        requires
            old(self).wf(),
        ensures
            final(self).wf(),
            r@ == effect_result(effect@, text_of(*failure), old(self)@).0,
            final(self)@ == effect_result(effect@, text_of(*failure), old(self)@).1,
    {
        match effect {
            Effect::ChangeDirectory { arg, .. } => match failure {
                Some(_) => complaint(cd_failed(arg.as_str())),
                None => no_output(),
            },
            Effect::WriteHistory { path, .. } => match failure {
                Some(reason) => complaint(history_failed(path.as_str(), reason.as_str())),
                None => no_output(),
            },
            Effect::AppendHistory { path, .. } => match failure {
                Some(reason) => complaint(history_failed(path.as_str(), reason.as_str())),
                None => {
                    self.history.mark_saved();
                    no_output()
                },
            },
            _ => no_output(),
        }
    }

    /// The numbers of the jobs, in order.
    pub fn job_numbers(&self) -> (r: Vec<u32>)
        ensures
            r@.len() == self@.jobs.len(),
            forall|i: int| 0 <= i < r@.len() ==> r@[i] == (#[trigger] self@.jobs[i]).number,
    {
        self.jobs.numbers()
    }

    /// Takes up a program that was started in the background, given its process: its job
    /// number, and what is printed of it.
    pub fn job_started(&mut self, command: &Command, process: u32) -> (r: (u32, String))
        requires
            old(self).wf(),
            old(self)@.jobs.len() < u32::MAX,
        ensures
            final(self).wf(),
            is_next_number(old(self)@.jobs, r.0 as int),
            final(self)@ == (ShellView {
                jobs: old(self)@.jobs.insert(
                    slot(old(self)@.jobs, r.0 as int),
                    started(r.0 as int, join(command@.words, " "@)),
                ),
                ..old(self)@
            }),
            r.1@ == "["@ + decimal(r.0 as nat) + "] "@ + decimal(process as nat) + "\n"@,
    {
        let text = join_from(&command.words, 0, " ");
        assert(texts(command.words@).skip(0) =~= texts(command.words@));
        let n = self.jobs.start(text);
        let mut r = "[".to_owned();
        r.append(decimal_of(n as u64).as_str());
        r.append("] ");
        r.append(decimal_of(process as u64).as_str());
        r.append("\n");
        (n, r)
    }

    /// Takes out the jobs that are done, before a prompt: what is printed of them. `done` says
    /// of each job, in order, whether it is done.
    pub fn reap_jobs(&mut self, done: &Vec<bool>) -> (r: String)
        requires
            old(self).wf(),
            done@.len() == old(self)@.jobs.len(),
        ensures
            final(self).wf(),
            r@ == report(old(self)@.jobs, done@, false, done@.len() as int),
            final(self)@ == (ShellView {
                jobs: running(old(self)@.jobs, done@, done@.len() as int),
                ..old(self)@
            }),
    {
        self.jobs.reap(done)
    }

    /// Lists the jobs, and takes out those that are done: what `jobs` prints. `done` says of
    /// each job, in order, whether it is done.
    pub fn list_jobs(&mut self, done: &Vec<bool>) -> (r: String)
        requires
            old(self).wf(),
            done@.len() == old(self)@.jobs.len(),
        ensures
            final(self).wf(),
            r@ == report(old(self)@.jobs, done@, true, done@.len() as int),
            final(self)@ == (ShellView {
                jobs: running(old(self)@.jobs, done@, done@.len() as int),
                ..old(self)@
            }),
    {
        self.jobs.list(done)
    }
}

/// The exit code that `exit` is given.
fn read_exit_code(words: &Vec<String>) -> (code: i32)
    ensures
        code == exit_code(texts(words@)),
{
    if words.len() > 1 {
        match parse_i32(words[1].as_str()) {
            Some(code) => code,
            None => 0,
        }
    } else {
        0
    }
}

/// What is left to do for `cd`.
fn plan_cd(words: &Vec<String>) -> (r: Effect)
    ensures
        r@ == cd_effect(texts(words@)),
{
    let arg = if words.len() > 1 {
        words[1].clone()
    } else {
        "~".to_owned()
    };
    let home = str::eq(arg.as_str(), "~");
    Effect::ChangeDirectory { arg, home }
}

/// What is left to do for `type`.
fn plan_type(words: &Vec<String>) -> (r: Effect)
    ensures
        r@ == type_effect(texts(words@)),
{
    let name = asked_type(words);
    if is_builtin(name.as_str()) {
        Effect::Print(print_type(name.as_str(), &None))
    } else {
        Effect::Locate { name }
    }
}

/// What is left to do for `history`.
fn plan_history(words: &Vec<String>, history: &History) -> (r: Effect)
    requires
        history.wf(),
    ensures
        r@ == history_effect(texts(words@), history@),
{
    if words.len() < 2 {
        return Effect::Print(output(history.all()));
    }
    let flag = words[1].as_str();
    let read = str::eq(flag, "-r");
    let write = str::eq(flag, "-w");
    if read || write || str::eq(flag, "-a") {
        if words.len() == 2 {
            return Effect::Print(no_output());
        }
        let path = words[2].clone();
        return if read {
            Effect::ReadHistory { path }
        } else if write {
            Effect::WriteHistory { path, content: history.content() }
        } else {
            Effect::AppendHistory { path, content: history.unsaved_content() }
        };
    }
    match parse_usize(flag) {
        Some(count) => Effect::Print(output(history.last(count))),
        None => Effect::Print(output(history.all())),
    }
}

} // verus!
