use rust_shell::pipeline::Stage;
use rust_shell::redirect::Redirect;
use rust_shell::shell::{is_blank, plan, Action, Command, Effect, Shell};
use rust_shell::steps::{first_step, next_step, Phase, Step};

fn words(list: &[&str]) -> Vec<String> {
    list.iter().map(|w| w.to_string()).collect()
}

fn builtin(action: Action) -> Command {
    match action {
        Action::Builtin(command) => command,
        _ => panic!("it is a builtin"),
    }
}

fn program(action: Action) -> Command {
    match action {
        Action::Program(command) => command,
        _ => panic!("it is a program"),
    }
}

fn pipeline(action: Action) -> Vec<Stage> {
    match action {
        Action::Pipeline(stages) => stages,
        _ => panic!("it is a pipeline"),
    }
}

fn run(shell: &mut Shell, line: &str) -> Effect {
    let command = builtin(shell.submit(line));
    shell.run(&command.words)
}

fn printed(shell: &mut Shell, line: &str) -> (String, String) {
    match run(shell, line) {
        Effect::Print(output) => (output.out, output.err),
        _ => panic!("it prints"),
    }
}

fn out(text: &str) -> (String, String) {
    (text.to_string(), String::new())
}

fn err(text: &str) -> (String, String) {
    (String::new(), text.to_string())
}

#[test]
fn blank_lines_are_forgotten() {
    assert!(is_blank(""));
    assert!(is_blank(" \t\u{3000}\n"));
    assert!(!is_blank(" a"));
    let mut shell = Shell::new();
    assert!(matches!(shell.submit("  \t"), Action::Forget));
    assert!(matches!(shell.submit(""), Action::Forget));
    assert!(shell.history().is_empty());
}

#[test]
fn lines_without_a_command_are_remembered() {
    let mut shell = Shell::new();
    assert!(matches!(shell.submit("$NONE"), Action::Nothing));
    assert!(matches!(shell.submit("&"), Action::Nothing));
    assert!(matches!(shell.submit("> f"), Action::Nothing));
    assert_eq!(shell.history(), &words(&["$NONE", "&", "> f"]));
}

#[test]
fn a_simple_line_runs_its_words() {
    let mut shell = Shell::new();
    let command = program(shell.submit("ls  -l 'a b'"));
    assert_eq!(command.words, words(&["ls", "-l", "a b"]));
    assert!(!command.background);
    assert!(command.stdout.is_none() && command.stderr.is_none());
    let command = builtin(shell.submit("echo hi"));
    assert_eq!(command.words, words(&["echo", "hi"]));
    assert_eq!(shell.history(), &words(&["ls  -l 'a b'", "echo hi"]));
}

#[test]
fn an_ampersand_at_the_end_puts_a_command_in_the_background() {
    let command = program(plan(words(&["sleep", "1", "&"])));
    assert_eq!(command.words, words(&["sleep", "1"]));
    assert!(command.background);
    let command = program(plan(words(&["a", "&", "b"])));
    assert_eq!(command.words, words(&["a", "&", "b"]));
    assert!(!command.background);
    let command = program(plan(words(&["a", "&", "&"])));
    assert_eq!(command.words, words(&["a", "&"]));
    assert!(command.background);
}

#[test]
fn a_redirection_keeps_the_command() {
    let mut shell = Shell::new();
    let command = program(shell.submit("ls /nonexistent 2> err.txt"));
    assert_eq!(command.words, words(&["ls", "/nonexistent"]));
    assert!(command.stdout.is_none());
    match command.stderr {
        Some(Redirect { path, append }) => assert_eq!((path.as_str(), append), ("err.txt", false)),
        None => panic!("standard error is redirected"),
    }
    let command = builtin(shell.submit("echo hi >> out.txt"));
    assert_eq!(command.words, words(&["echo", "hi"]));
    match command.stdout {
        Some(Redirect { path, append }) => assert_eq!((path.as_str(), append), ("out.txt", true)),
        None => panic!("standard output is redirected"),
    }
}

#[test]
fn a_bar_makes_a_pipeline() {
    let mut shell = Shell::new();
    let stages = pipeline(shell.submit("echo a > f | wc &"));
    assert_eq!(stages.len(), 2);
    assert_eq!(stages[0].words, words(&["echo", "a", ">", "f"]));
    assert_eq!(stages[1].words, words(&["wc", "&"]));
    assert_eq!(pipeline(shell.submit("a '|' b")).len(), 2);
    match shell.submit("a |") {
        Action::Complain(text) => assert_eq!(text, "syntax error near `|'\n"),
        _ => panic!("a command is missing"),
    }
}

#[test]
fn variables_are_set_and_expanded() {
    let mut shell = Shell::new();
    assert_eq!(printed(&mut shell, "declare NAME=world"), out(""));
    assert_eq!(printed(&mut shell, "echo \"hello $NAME\""), out("hello world\n"));
    assert_eq!(printed(&mut shell, "echo '$NAME'"), out("$NAME\n"));
    assert_eq!(
        printed(&mut shell, "declare -p NAME"),
        out("declare -- NAME=\"world\"\n")
    );
    assert_eq!(
        printed(&mut shell, "declare 9=1"),
        err("declare: `9=1': not a valid identifier\n")
    );
    assert_eq!(printed(&mut shell, "declare -p 9"), err("declare: 9: not found\n"));
}

#[test]
fn quoting_is_preserved() {
    let mut shell = Shell::new();
    assert_eq!(
        printed(&mut shell, "echo 'hello   world'"),
        out("hello   world\n")
    );
}

#[test]
fn type_knows_every_builtin() {
    let mut shell = Shell::new();
    for name in [
        "exit", "echo", "pwd", "cd", "type", "complete", "jobs", "history", "declare",
    ] {
        let line = format!("type {}", name);
        let text = format!("{} is a shell builtin\n", name);
        assert_eq!(printed(&mut shell, &line), out(&text));
        builtin(plan(words(&[name])));
    }
    match run(&mut shell, "type ls") {
        Effect::Locate { name } => assert_eq!(name, "ls"),
        _ => panic!("the program is to be found"),
    }
    match run(&mut shell, "type") {
        Effect::Locate { name } => assert_eq!(name, ""),
        _ => panic!("the program is to be found"),
    }
}

#[test]
fn exit_saves_the_history() {
    let mut shell = Shell::new();
    for (line, expected) in [
        ("exit", 0),
        ("exit 3", 3),
        ("exit -1", -1),
        ("exit x", 0),
        ("exit 99999999999", 0),
    ] {
        match run(&mut shell, line) {
            Effect::Exit { code, content } => {
                assert_eq!(code, expected);
                assert_eq!(content, shell.history_content());
            }
            _ => panic!("the shell is left"),
        }
    }
    assert_eq!(
        shell.history_content(),
        "exit\nexit 3\nexit -1\nexit x\nexit 99999999999\n"
    );
}

#[test]
fn cd_means_the_home_directory_without_an_argument() {
    let mut shell = Shell::new();
    for (line, expected, at_home) in [("cd", "~", true), ("cd ~", "~", true), ("cd /a b", "/a", false)]
    {
        match run(&mut shell, line) {
            Effect::ChangeDirectory { arg, home } => {
                assert_eq!((arg.as_str(), home), (expected, at_home));
            }
            _ => panic!("the directory is changed"),
        }
    }
}

#[test]
fn pwd_and_jobs_are_left_to_the_outside() {
    let mut shell = Shell::new();
    assert!(matches!(run(&mut shell, "pwd"), Effect::PrintDirectory));
    assert!(matches!(run(&mut shell, "jobs"), Effect::ListJobs));
}

#[test]
fn the_history_is_listed() {
    let mut shell = Shell::new();
    shell.submit("ls");
    shell.submit("ls");
    assert_eq!(
        printed(&mut shell, "history"),
        out("    1  ls\n    2  ls\n    3  history\n")
    );
    assert_eq!(
        printed(&mut shell, "history 2"),
        out("    3  history\n    4  history 2\n")
    );
    assert_eq!(printed(&mut shell, "history 0"), out(""));
    let (listed, _) = printed(&mut shell, "history -x");
    assert_eq!(listed.lines().count(), 6);
    let (listed, _) = printed(&mut shell, "history 100");
    assert_eq!(listed.lines().count(), 7);
}

#[test]
fn the_history_works_on_files() {
    let mut shell = Shell::new();
    shell.submit("ls");
    match run(&mut shell, "history -w f") {
        Effect::WriteHistory { path, content } => {
            assert_eq!((path.as_str(), content.as_str()), ("f", "ls\nhistory -w f\n"));
        }
        _ => panic!("the history is written"),
    }
    match run(&mut shell, "history -r f") {
        Effect::ReadHistory { path } => assert_eq!(path, "f"),
        _ => panic!("the history is read"),
    }
    shell.read_history("one\ntwo\n");
    assert_eq!(
        shell.history(),
        &words(&["ls", "history -w f", "history -r f", "one", "two"])
    );
    for flag in ["-r", "-w", "-a"] {
        assert_eq!(printed(&mut shell, &format!("history {}", flag)), out(""));
    }
}

#[test]
fn only_new_history_is_added() {
    let mut shell = Shell::new();
    shell.load_history(&Some("old\n".to_string()));
    let effect = run(&mut shell, "history -a f");
    match &effect {
        Effect::AppendHistory { path, content } => {
            assert_eq!((path.as_str(), content.as_str()), ("f", "history -a f\n"));
        }
        _ => panic!("the history is added"),
    }
    let output = shell.effect_done(&effect, &None);
    assert_eq!((output.out, output.err), out(""));
    shell.submit("ls");
    match run(&mut shell, "history -a g") {
        Effect::AppendHistory { content, .. } => assert_eq!(content, "ls\nhistory -a g\n"),
        _ => panic!("the history is added"),
    }
    assert_eq!(shell.history_content(), "old\nhistory -a f\nls\nhistory -a g\n");
}

#[test]
fn history_that_could_not_be_added_is_left_to_add() {
    let mut shell = Shell::new();
    let effect = run(&mut shell, "history -a /f");
    let output = shell.effect_done(&effect, &Some("denied".to_string()));
    assert_eq!((output.out, output.err), err("history: /f: denied\n"));
    match run(&mut shell, "history -a g") {
        Effect::AppendHistory { content, .. } => {
            assert_eq!(content, "history -a /f\nhistory -a g\n");
        }
        _ => panic!("the history is added"),
    }
}

#[test]
fn failures_of_effects_are_told() {
    let mut shell = Shell::new();
    let why = Some("why".to_string());
    for (line, text) in [
        ("cd", "cd: ~: No such file or directory\n"),
        ("cd /x", "cd: /x: No such file or directory\n"),
        ("history -w f", "history: f: why\n"),
        ("history -a f", "history: f: why\n"),
        ("history -r f", ""),
        ("pwd", ""),
    ] {
        let effect = run(&mut shell, line);
        let output = shell.effect_done(&effect, &why);
        assert_eq!((output.out, output.err), err(text));
        let effect = run(&mut shell, line);
        let output = shell.effect_done(&effect, &None);
        assert_eq!((output.out, output.err), err(""));
    }
    assert_eq!(shell.history().len(), 12);
}

#[test]
fn a_history_file_that_is_missing_is_no_failure() {
    let mut shell = Shell::new();
    shell.load_history(&None);
    assert!(shell.history().is_empty());
}

#[test]
fn completion_scripts_are_kept() {
    let mut shell = Shell::new();
    assert_eq!(printed(&mut shell, "complete -C '/a b/c' git"), out(""));
    assert_eq!(shell.scripts().get("git").map(|s| s.as_str()), Some("/a b/c"));
    assert_eq!(
        printed(&mut shell, "complete -p git"),
        out("complete -C '/a b/c' git\n")
    );
}

#[test]
fn builtins_change_only_their_own() {
    let mut shell = Shell::new();
    printed(&mut shell, "declare A=1");
    printed(&mut shell, "complete -C s git");
    assert_eq!(printed(&mut shell, "echo $A"), out("1\n"));
    printed(&mut shell, "complete -r git");
    assert_eq!(printed(&mut shell, "echo $A"), out("1\n"));
    assert!(shell.scripts().get("git").is_none());
    assert_eq!(shell.history().len(), 5);
}

#[test]
fn background_jobs_are_numbered_and_reaped() {
    let mut shell = Shell::new();
    let command = program(shell.submit("sleep  '1 2' > f &"));
    assert_eq!(shell.job_started(&command, 4711), (1, "[1] 4711\n".to_string()));
    let command = program(shell.submit("wait &"));
    assert_eq!(shell.job_started(&command, 5), (2, "[2] 5\n".to_string()));
    assert_eq!(shell.job_numbers(), vec![1, 2]);
    assert_eq!(
        shell.list_jobs(&vec![false, false]),
        "[1]-  Running                 sleep 1 2 &\n[2]+  Running                 wait &\n"
    );
    assert_eq!(
        shell.reap_jobs(&vec![true, false]),
        "[1]-  Done                    sleep 1 2\n"
    );
    assert_eq!(shell.job_numbers(), vec![2]);
    assert_eq!(shell.job_started(&command, 6).0, 1);
    assert_eq!(shell.list_jobs(&vec![true, true]).lines().count(), 2);
    assert!(shell.job_numbers().is_empty());
}

/// The phases that a command goes through, and its last message.
fn steps(line: &[&str], failing: &str) -> (Vec<&'static str>, String) {
    let command = match plan(words(line)) {
        Action::Builtin(command) | Action::Program(command) => command,
        _ => panic!("it is a command"),
    };
    let mut names = Vec::new();
    let mut step = first_step(&command);
    loop {
        let phase = match step {
            Step::Do(phase) => phase,
            Step::Complain(text) => return (names, text),
            Step::Finished => return (names, String::new()),
        };
        let name = match phase {
            Phase::Find => "find",
            Phase::OpenStdout => "stdout",
            Phase::OpenStderr => "stderr",
            Phase::Run => "run",
            Phase::Launch => "launch",
        };
        names.push(name);
        let failure = if name == failing { Some("why".to_string()) } else { None };
        step = next_step(&command, phase, &failure);
    }
}

#[test]
fn steps_go_through_the_phases() {
    assert_eq!(steps(&["echo"], "").0, vec!["run"]);
    assert_eq!(steps(&["ls"], "").0, vec!["find", "launch"]);
    assert_eq!(steps(&["echo", "2>", "e", ">", "o"], "").0, vec!["stdout", "stderr", "run"]);
    assert_eq!(
        steps(&["ls", "2>", "e", ">", "o", "&"], "").0,
        vec!["find", "stdout", "stderr", "launch"]
    );
    assert_eq!(steps(&["ls", "2>", "e"], "").0, vec!["find", "stderr", "launch"]);
}

#[test]
fn a_failure_ends_the_command() {
    let line = ["ls", ">", "o", "2>", "e"];
    assert_eq!(
        steps(&line, "find"),
        (vec!["find"], "ls: command not found\n".to_string())
    );
    assert_eq!(
        steps(&line, "stdout"),
        (vec!["find", "stdout"], "o: why\n".to_string())
    );
    assert_eq!(
        steps(&line, "stderr"),
        (vec!["find", "stdout", "stderr"], "e: why\n".to_string())
    );
    assert_eq!(
        steps(&line, "launch"),
        (
            vec!["find", "stdout", "stderr", "launch"],
            "ls: failed to execute: why\n".to_string()
        )
    );
}

#[test]
fn a_builtin_that_cannot_be_redirected_is_not_run() {
    assert_eq!(
        steps(&["echo", ">", "o"], "stdout"),
        (vec!["stdout"], "o: why\n".to_string())
    );
}
