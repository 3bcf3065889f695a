use rust_shell::builtins::run_builtin_in_pipeline;
use rust_shell::pipeline::{pipeline_builtin, plan_pipeline, split_segments};

fn words(list: &[&str]) -> Vec<String> {
    list.iter().map(|w| w.to_string()).collect()
}

#[test]
fn segments_stand_between_the_bars() {
    let segments = split_segments(&words(&["a", "b", "|", "c", "|", "d", "e", "f"]));
    assert_eq!(segments, vec![words(&["a", "b"]), words(&["c"]), words(&["d", "e", "f"])]);
}

#[test]
fn segments_with_the_bars_put_back_are_the_line() {
    let line = words(&["|", "a", "|", "|", "b", "|"]);
    let segments = split_segments(&line);
    assert_eq!(segments.len(), 5);
    assert_eq!(segments.join(&"|".to_string()), line);
}

#[test]
fn a_line_without_bars_is_one_segment() {
    assert_eq!(split_segments(&words(&["a", "b"])), vec![words(&["a", "b"])]);
    assert_eq!(split_segments(&words(&[])), vec![words(&[])]);
}

#[test]
fn three_builtins_run_in_a_pipeline() {
    for name in ["echo", "pwd", "type"] {
        assert!(pipeline_builtin(name));
    }
    for name in ["exit", "cd", "complete", "jobs", "history", "declare", "ls", ""] {
        assert!(!pipeline_builtin(name));
    }
}

#[test]
fn pipes_join_neighbours() {
    let Ok(stages) = plan_pipeline(&words(&["echo", "a", "|", "grep", "a", "|", "type", "ls"]))
    else {
        panic!("the pipeline is well-formed");
    };
    assert_eq!(stages.len(), 3);
    assert_eq!(stages[0].words, words(&["echo", "a"]));
    assert_eq!(stages[1].words, words(&["grep", "a"]));
    assert_eq!(stages[2].words, words(&["type", "ls"]));
    let ties: Vec<(bool, bool, bool)> = stages
        .iter()
        .map(|s| (s.builtin, s.reads_pipe, s.writes_pipe))
        .collect();
    assert_eq!(
        ties,
        vec![(true, false, true), (false, true, true), (true, true, false)]
    );
}

#[test]
fn a_missing_command_is_a_syntax_error() {
    for line in [
        words(&["|", "a"]),
        words(&["a", "|"]),
        words(&["a", "|", "|", "b"]),
        words(&["|"]),
    ] {
        match plan_pipeline(&line) {
            Ok(_) => panic!("a command is missing"),
            Err(text) => assert_eq!(text, "syntax error near `|'\n"),
        }
    }
}

#[test]
fn a_builtin_writes_to_the_next_command() {
    let dir = Some("/home".to_string());
    let place = Some("/bin/ls".to_string());
    let run = |list: &[&str]| run_builtin_in_pipeline(&words(list), &dir, &place);
    assert_eq!(run(&["echo", "a", "b"]), "a b\n");
    assert_eq!(run(&["pwd"]), "/home\n");
    assert_eq!(run(&["type", "cd"]), "cd is a shell builtin\n");
    assert_eq!(run(&["type", "ls"]), "ls is /bin/ls\n");
    assert_eq!(run(&["ls"]), "");
}

#[test]
fn a_builtin_in_a_pipeline_tells_the_next_command_what_is_missing() {
    let run = |list: &[&str]| run_builtin_in_pipeline(&words(list), &None, &None);
    assert_eq!(run(&["pwd"]), "");
    assert_eq!(run(&["type", "nope"]), "nope: not found\n");
    assert_eq!(run(&["type"]), ": not found\n");
}
