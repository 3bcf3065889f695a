use rust_shell::answer::answer;
use rust_shell::builtins::complete;
use rust_shell::completion::{
    complete_command, complete_filename, complete_from_output, complete_from_text, find_in_path,
    is_executable, listed_directory, Candidate, DirEntry, FileMeta, ProgramEntry,
};
use rust_shell::merge::merge;
use rust_shell::request::{completion_request, Request};
use rust_shell::table::Table;

fn meta(is_file: bool, mode: Option<u32>) -> FileMeta {
    FileMeta { is_file, mode }
}

fn program(name: &str, mode: u32) -> ProgramEntry {
    ProgramEntry {
        name: name.to_string(),
        meta: Some(meta(true, Some(mode))),
    }
}

fn entry(name: &str, is_dir: bool) -> DirEntry {
    DirEntry {
        name: name.to_string(),
        is_dir,
    }
}

fn candidate(display: &str, replacement: &str) -> Candidate {
    Candidate {
        display: display.to_string(),
        replacement: replacement.to_string(),
    }
}

fn pairs(list: Vec<Candidate>) -> Vec<(String, String)> {
    list.into_iter().map(|c| (c.display, c.replacement)).collect()
}

fn expected(list: &[(&str, &str)]) -> Vec<(String, String)> {
    list.iter().map(|(d, r)| (d.to_string(), r.to_string())).collect()
}

#[test]
fn a_program_is_a_file_that_someone_may_execute() {
    assert!(is_executable(&meta(true, Some(0o755))));
    assert!(is_executable(&meta(true, Some(0o100))));
    assert!(is_executable(&meta(true, Some(0o010))));
    assert!(is_executable(&meta(true, Some(0o001))));
    assert!(is_executable(&meta(true, None)));
    assert!(!is_executable(&meta(true, Some(0o666))));
    assert!(!is_executable(&meta(false, Some(0o777))));
    assert!(!is_executable(&meta(false, None)));
}

#[test]
fn the_first_program_of_the_path_is_found() {
    let found = vec![
        None,
        Some(meta(true, Some(0o644))),
        Some(meta(false, Some(0o755))),
        Some(meta(true, Some(0o755))),
        Some(meta(true, Some(0o755))),
    ];
    assert_eq!(find_in_path(&found), Some(3));
    assert_eq!(find_in_path(&vec![None, Some(meta(true, Some(0)))]), None);
    assert_eq!(find_in_path(&vec![]), None);
}

#[test]
fn commands_are_completed_with_builtins_and_programs() {
    let entries = vec![
        program("expr", 0o755),
        program("env", 0o644),
        program("ls", 0o755),
        ProgramEntry {
            name: "ed".to_string(),
            meta: None,
        },
        program("env", 0o755),
    ];
    assert_eq!(
        pairs(complete_command("e", &entries)),
        expected(&[
            ("echo", "echo "),
            ("exit", "exit "),
            ("expr", "expr "),
            ("env", "env "),
        ])
    );
    assert_eq!(pairs(complete_command("ex", &entries)).len(), 2);
    assert_eq!(pairs(complete_command("l", &entries)), expected(&[("ls", "ls ")]));
    assert!(complete_command("zz", &entries).is_empty());
}

#[test]
fn every_builtin_is_offered() {
    assert_eq!(
        pairs(complete_command("", &vec![])),
        expected(&[
            ("echo", "echo "),
            ("exit", "exit "),
            ("pwd", "pwd "),
            ("cd", "cd "),
            ("type", "type "),
            ("complete", "complete "),
            ("jobs", "jobs "),
            ("history", "history "),
            ("declare", "declare "),
        ])
    );
    assert_eq!(pairs(complete_command("p", &vec![])), expected(&[("pwd", "pwd ")]));
    for name in [
        "exit", "echo", "pwd", "cd", "type", "complete", "jobs", "history", "declare",
    ] {
        let offered = pairs(complete_command(name, &vec![program("zz", 0o755)]));
        assert_eq!(offered, vec![(name.to_string(), format!("{} ", name))]);
    }
}

#[test]
fn files_get_a_blank_and_directories_a_slash() {
    let entries = vec![entry("main.rs", false), entry("map", true), entry("lib.rs", false)];
    assert_eq!(
        pairs(complete_filename("ma", &entries)),
        expected(&[("main.rs", "main.rs "), ("map/", "map/")])
    );
    assert_eq!(complete_filename("", &entries).len(), 3);
}

#[test]
fn nested_paths_keep_their_directory() {
    let entries = vec![entry("main.rs", false), entry("mod", true)];
    assert_eq!(
        pairs(complete_filename("src/a/m", &entries)),
        expected(&[("main.rs", "src/a/main.rs "), ("mod/", "src/a/mod/")])
    );
}

#[test]
fn the_directory_of_a_word_is_listed() {
    assert_eq!(listed_directory("ma"), ".");
    assert_eq!(listed_directory(""), ".");
    assert_eq!(listed_directory("src/ma"), "src/");
    assert_eq!(listed_directory("a/b/"), "a/b/");
    assert_eq!(listed_directory("/et"), "/");
}

#[test]
fn lines_of_a_script_are_filtered() {
    assert_eq!(
        pairs(complete_from_text("add\r\nbranch\nadjust", "ad")),
        expected(&[("add", "add "), ("adjust", "adjust ")])
    );
    assert!(complete_from_text("", "").is_empty());
    assert_eq!(pairs(complete_from_text("\n", "")), expected(&[("", " ")]));
}

#[test]
fn bytes_of_a_script_are_decoded() {
    assert_eq!(
        pairs(complete_from_output(&"h\u{e9}\nhi\n".as_bytes().to_vec(), "h")),
        expected(&[("h\u{e9}", "h\u{e9} "), ("hi", "hi ")])
    );
    assert_eq!(
        pairs(complete_from_output(&vec![b'a', 0xff, b'b', b'\n'], "a")),
        expected(&[("a\u{fffd}b", "a\u{fffd}b ")])
    );
}

#[test]
fn candidates_are_sorted_without_repetitions() {
    let list = vec![
        candidate("1", "ls "),
        candidate("2", "echo "),
        candidate("3", "ls "),
        candidate("4", "Z "),
        candidate("5", "echo "),
        candidate("6", "l"),
    ];
    assert_eq!(
        pairs(merge(list)),
        expected(&[("4", "Z "), ("2", "echo "), ("6", "l"), ("1", "ls ")])
    );
    assert!(merge(vec![]).is_empty());
}

#[test]
fn candidates_are_ordered_like_strings() {
    let texts = [
        "b", "a", "", "ab", "\u{e9}", "a b", "\u{ffff}", "\u{10000}", "B", "a/", "\u{7f}", "\u{80}",
    ];
    let mut sorted: Vec<String> = texts.iter().map(|t| t.to_string()).collect();
    sorted.sort();
    let merged = merge(texts.iter().map(|t| candidate(t, t)).collect());
    let order: Vec<String> = merged.into_iter().map(|c| c.replacement).collect();
    assert_eq!(order, sorted);
}

#[test]
fn a_request_is_answered_by_what_it_is_about() {
    let programs = vec![program("expr", 0o755), program("echo", 0o755), program("ed", 0o644)];
    let files = vec![entry("exam", true), entry("ex.rs", false), entry("lib", true)];
    let output = b"exit\nexam\nexam\nother\n".to_vec();
    let mut scripts = Table::new();
    scripts.set("git".to_string(), "g".to_string());
    let ask = |line: &str| {
        let (_, request) = completion_request(line, line.len(), &scripts);
        pairs(answer(&request, &programs, &files, &output))
    };
    assert_eq!(
        ask("e"),
        expected(&[("echo", "echo "), ("exit", "exit "), ("expr", "expr ")])
    );
    assert_eq!(ask("cat src/ex"), expected(&[("ex.rs", "src/ex.rs "), ("exam/", "src/exam/")]));
    assert_eq!(ask("git ex"), expected(&[("exam", "exam "), ("exit", "exit ")]));
    assert!(ask("git exx").is_empty());
}

#[test]
fn a_script_that_wrote_nothing_offers_nothing() {
    let mut scripts = Table::new();
    scripts.set("git".to_string(), "g".to_string());
    let (_, request) = completion_request("git ", 4, &scripts);
    let programs = vec![program("expr", 0o755)];
    assert!(answer(&request, &programs, &vec![entry("a", false)], &vec![]).is_empty());
}

#[test]
fn typing_more_narrows_what_is_offered() {
    let programs = vec![program("expr", 0o755), program("env", 0o755)];
    let files = vec![entry("main.rs", false), entry("map", true)];
    let wide = pairs(complete_command("e", &programs));
    for pair in pairs(complete_command("ex", &programs)) {
        assert!(wide.contains(&pair));
    }
    let wide = pairs(complete_filename("src/m", &files));
    assert_eq!(wide.len(), 2);
    let narrow = pairs(complete_filename("src/map", &files));
    assert_eq!(narrow, expected(&[("map/", "src/map/")]));
    assert!(wide.contains(&narrow[0]));
}

#[test]
fn the_first_word_is_completed_as_a_command() {
    match completion_request("ech", 3, &Table::new()) {
        (0, Request::Command { prefix }) => assert_eq!(prefix, "ech"),
        _ => panic!("it is a command"),
    }
    match completion_request("echo a", 2, &Table::new()) {
        (0, Request::Command { prefix }) => assert_eq!(prefix, "ec"),
        _ => panic!("it is a command"),
    }
    match completion_request("", 0, &Table::new()) {
        (0, Request::Command { prefix }) => assert_eq!(prefix, ""),
        _ => panic!("it is a command"),
    }
}

#[test]
fn a_later_word_is_completed_as_a_file() {
    match completion_request("cat src/m", 9, &Table::new()) {
        (4, Request::Filename { word }) => assert_eq!(word, "src/m"),
        _ => panic!("it is a file"),
    }
    match completion_request(" ca", 3, &Table::new()) {
        (1, Request::Filename { word }) => assert_eq!(word, "ca"),
        _ => panic!("it is a file"),
    }
    match completion_request("cat ", 4, &Table::new()) {
        (4, Request::Filename { word }) => assert_eq!(word, ""),
        _ => panic!("it is a file"),
    }
}

#[test]
fn positions_are_counted_in_bytes() {
    let line = "caf\u{e9} \u{fc}b";
    match completion_request(line, line.len(), &Table::new()) {
        (6, Request::Filename { word }) => assert_eq!(word, "\u{fc}b"),
        _ => panic!("it is a file"),
    }
    match completion_request(line, 8, &Table::new()) {
        (6, Request::Filename { word }) => assert_eq!(word, "\u{fc}"),
        _ => panic!("it is a file"),
    }
}

#[test]
fn only_blanks_part_the_word_before_the_cursor() {
    match completion_request("cat a\tb", 7, &Table::new()) {
        (4, Request::Filename { word }) => assert_eq!(word, "a\tb"),
        _ => panic!("it is a file"),
    }
    match completion_request("cat\tb", 5, &Table::new()) {
        (0, Request::Command { prefix }) => assert_eq!(prefix, "cat\tb"),
        _ => panic!("it is a command"),
    }
}

#[test]
fn a_registered_script_is_asked() {
    let words = |list: &[&str]| -> Vec<String> { list.iter().map(|w| w.to_string()).collect() };
    let mut scripts = Table::new();
    complete(&words(&["complete", "-C", "/bin/g", "git"]), &mut scripts);
    let line = " git  add \t fi rest";
    match completion_request(line, 14, &scripts) {
        (
            12,
            Request::Script {
                script,
                command,
                word,
                previous,
                line: seen,
                point,
            },
        ) => {
            assert_eq!(script, "/bin/g");
            assert_eq!(command, "git");
            assert_eq!(word, "fi");
            assert_eq!(previous, "add");
            assert_eq!(seen, line);
            assert_eq!(point, "14");
        }
        _ => panic!("it is for the script"),
    }
    complete(&words(&["complete", "-r", "git"]), &mut scripts);
    match completion_request(line, 14, &scripts) {
        (12, Request::Filename { word }) => assert_eq!(word, "fi"),
        _ => panic!("it is a file"),
    }
}

#[test]
fn the_command_itself_can_be_the_word_before() {
    let mut scripts = Table::new();
    scripts.set("git".to_string(), "g".to_string());
    match completion_request("git ", 4, &scripts) {
        (4, Request::Script { word, previous, point, .. }) => {
            assert_eq!(word, "");
            assert_eq!(previous, "git");
            assert_eq!(point, "4");
        }
        _ => panic!("it is for the script"),
    }
}

#[test]
fn a_script_can_be_asked_before_the_command() {
    let mut scripts = Table::new();
    scripts.set("git".to_string(), "g".to_string());
    match completion_request("  git", 1, &scripts) {
        (1, Request::Script { command, word, previous, .. }) => {
            assert_eq!(command, "git");
            assert_eq!(word, "");
            assert_eq!(previous, "");
        }
        _ => panic!("it is for the script"),
    }
}
