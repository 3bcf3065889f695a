use rust_shell::builtins::{
    asked_type, complete, declare, echo, is_builtin, print_directory, print_type, Output,
};
use rust_shell::lexer::tokenize;
use rust_shell::messages::{
    cd_failed, command_not_found, execution_failed, history_failed, redirect_failed,
};
use rust_shell::table::Table;

fn words(list: &[&str]) -> Vec<String> {
    list.iter().map(|w| w.to_string()).collect()
}

fn texts(o: Output) -> (String, String) {
    (o.out, o.err)
}

fn printed(out: &str, err: &str) -> (String, String) {
    (out.to_string(), err.to_string())
}

fn value(t: &Table, name: &str) -> Option<String> {
    t.get(name).cloned()
}

#[test]
fn nine_commands_are_builtins() {
    for name in [
        "exit", "echo", "pwd", "cd", "type", "complete", "jobs", "history", "declare",
    ] {
        assert!(is_builtin(name));
    }
    for name in ["", "ls", "Echo", "echo ", "exi"] {
        assert!(!is_builtin(name));
    }
}

#[test]
fn echo_joins_its_arguments() {
    assert_eq!(echo(&words(&["echo", "a", "b  c", ""])), "a b  c \n");
    assert_eq!(echo(&words(&["echo"])), "\n");
}

#[test]
fn the_directory_is_printed_on_a_line() {
    assert_eq!(print_directory("/tmp"), "/tmp\n");
}

#[test]
fn type_tells_builtins_and_programs_apart() {
    let place = Some("/bin/x".to_string());
    assert_eq!(
        texts(print_type("echo", &place)),
        printed("echo is a shell builtin\n", "")
    );
    assert_eq!(texts(print_type("x", &place)), printed("x is /bin/x\n", ""));
    assert_eq!(texts(print_type("x", &None)), printed("", "x: not found\n"));
}

#[test]
fn type_is_asked_about_its_first_argument() {
    assert_eq!(asked_type(&words(&["type", "a", "b"])), "a");
    assert_eq!(asked_type(&words(&["type"])), "");
}

#[test]
fn completion_scripts_are_set_shown_and_removed() {
    let mut scripts = Table::new();
    let mut run = |list: &[&str]| texts(complete(&words(list), &mut scripts));
    assert_eq!(
        run(&["complete", "-p", "git"]),
        printed("", "complete: git: no completion specification\n")
    );
    assert_eq!(run(&["complete", "-C", "/bin/g", "git"]), printed("", ""));
    assert_eq!(
        run(&["complete", "-p", "git"]),
        printed("complete -C '/bin/g' git\n", "")
    );
    assert_eq!(run(&["complete", "-r", "git"]), printed("", ""));
    assert_eq!(
        run(&["complete", "-p", "git"]),
        printed("", "complete: git: no completion specification\n")
    );
}

#[test]
fn complete_does_nothing_where_an_argument_is_missing() {
    let mut scripts = Table::new();
    scripts.set("git".to_string(), "g".to_string());
    for list in [
        words(&["complete"]),
        words(&["complete", "-C"]),
        words(&["complete", "-C", "s"]),
        words(&["complete", "-r"]),
        words(&["complete", "-p"]),
        words(&["complete", "git"]),
    ] {
        assert_eq!(texts(complete(&list, &mut scripts)), printed("", ""));
    }
    assert_eq!(value(&scripts, "git"), Some("g".to_string()));
    assert_eq!(value(&scripts, "s"), None);
}

#[test]
fn a_declared_value_is_shown() {
    let mut vars = Table::new();
    assert_eq!(
        texts(declare(&words(&["declare", "NAME=a=b c"]), &mut vars)),
        printed("", "")
    );
    assert_eq!(
        texts(declare(&words(&["declare", "-p", "NAME"]), &mut vars)),
        printed("declare -- NAME=\"a=b c\"\n", "")
    );
    assert_eq!(
        texts(declare(&words(&["declare", "-p", "OTHER"]), &mut vars)),
        printed("", "declare: OTHER: not found\n")
    );
    assert_eq!(
        texts(declare(&words(&["declare", "-p"]), &mut vars)),
        printed("", "")
    );
}

#[test]
fn a_declared_value_is_expanded() {
    let mut vars = Table::new();
    declare(&words(&["declare", "NAME=big world", "E="]), &mut vars);
    assert_eq!(
        tokenize("echo \"hello $NAME\" $NAME $E", &vars),
        vec!["echo", "hello big world", "big world"]
    );
}

#[test]
fn a_name_alone_keeps_its_value() {
    let mut vars = Table::new();
    declare(&words(&["declare", "A", "B=1", "B"]), &mut vars);
    assert_eq!(value(&vars, "A"), Some(String::new()));
    assert_eq!(value(&vars, "B"), Some("1".to_string()));
}

#[test]
fn invalid_names_are_refused() {
    let mut vars = Table::new();
    let o = declare(
        &words(&["declare", "1a=x", "ok=1", "a-b", "=y", "", "-x"]),
        &mut vars,
    );
    assert_eq!(
        texts(o),
        printed(
            "",
            "declare: `1a=x': not a valid identifier\n\
             declare: `a-b': not a valid identifier\n\
             declare: `=y': not a valid identifier\n\
             declare: `': not a valid identifier\n\
             declare: `-x': not a valid identifier\n"
        )
    );
    assert_eq!(value(&vars, "ok"), Some("1".to_string()));
    assert_eq!(value(&vars, "1a"), None);
    assert_eq!(value(&vars, ""), None);
}

#[test]
fn declare_without_arguments_does_nothing() {
    let mut vars = Table::new();
    assert_eq!(texts(declare(&words(&["declare"]), &mut vars)), printed("", ""));
}

#[test]
fn a_later_flag_is_an_argument_like_any_other() {
    let mut vars = Table::new();
    assert_eq!(
        texts(declare(&words(&["declare", "A=1", "-p"]), &mut vars)),
        printed("", "declare: `-p': not a valid identifier\n")
    );
    assert_eq!(value(&vars, "A"), Some("1".to_string()));
}

#[test]
fn failures_have_their_messages() {
    assert_eq!(command_not_found("x"), "x: command not found\n");
    assert_eq!(execution_failed("x", "why"), "x: failed to execute: why\n");
    assert_eq!(redirect_failed("f", "why"), "f: why\n");
    assert_eq!(cd_failed("~"), "cd: ~: No such file or directory\n");
    assert_eq!(history_failed("f", "why"), "history: f: why\n");
}
