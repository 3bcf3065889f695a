use rust_shell::redirect::{split_redirect, Redirect};

fn split(words: &[&str]) -> (Vec<String>, Option<(String, bool)>, Option<(String, bool)>) {
    let (args, stdout, stderr) = split_redirect(words.iter().map(|w| w.to_string()).collect());
    (args, plain(stdout), plain(stderr))
}

fn plain(r: Option<Redirect>) -> Option<(String, bool)> {
    r.map(|r| (r.path, r.append))
}

fn file(path: &str, append: bool) -> Option<(String, bool)> {
    Some((path.to_string(), append))
}

#[test]
fn words_without_operators_are_kept() {
    let (args, stdout, stderr) = split(&["ls", "-l", "3>", ">f", "2"]);
    assert_eq!(args, vec!["ls", "-l", "3>", ">f", "2"]);
    assert_eq!((stdout, stderr), (None, None));
}

#[test]
fn every_operator_redirects_its_output() {
    let cases = [
        (">", false, false),
        ("1>", false, false),
        (">>", false, true),
        ("1>>", false, true),
        ("2>", true, false),
        ("2>>", true, true),
    ];
    for (op, error, append) in cases {
        let (args, stdout, stderr) = split(&["echo", "hi", op, "f"]);
        assert_eq!(args, vec!["echo", "hi"]);
        let (there, other) = if error { (stderr, stdout) } else { (stdout, stderr) };
        assert_eq!(there, file("f", append));
        assert_eq!(other, None);
    }
}

#[test]
fn an_operator_can_stand_anywhere() {
    let (args, stdout, stderr) = split(&[">", "out", "ls", "2>>", "err", "-l"]);
    assert_eq!(args, vec!["ls", "-l"]);
    assert_eq!(stdout, file("out", false));
    assert_eq!(stderr, file("err", true));
}

#[test]
fn the_last_redirection_of_an_output_decides() {
    let (args, stdout, stderr) = split(&["ls", ">", "a", "2>", "e", ">>", "b"]);
    assert_eq!(args, vec!["ls"]);
    assert_eq!(stdout, file("b", true));
    assert_eq!(stderr, file("e", false));
}

#[test]
fn of_two_lines_the_later_redirection_decides() {
    let first = ["ls", ">", "a", "2>", "e"];
    let second = ["-l", ">>", "b", "x"];
    let mut both = first.to_vec();
    both.extend(second);
    let (args, stdout, stderr) = split(&both);
    assert_eq!(args, vec!["ls", "-l", "x"]);
    assert_eq!(stdout, split(&second).1);
    assert_eq!(stderr, split(&first).2);
}

#[test]
fn an_operator_at_the_end_takes_the_redirection_away() {
    let (args, stdout, stderr) = split(&["ls", ">", "a", "2>", "e", ">"]);
    assert_eq!(args, vec!["ls"]);
    assert_eq!(stdout, None);
    assert_eq!(stderr, file("e", false));
}

#[test]
fn an_operator_takes_an_operator_as_its_file() {
    let (args, stdout, stderr) = split(&["ls", ">", "2>", "x"]);
    assert_eq!(args, vec!["ls", "x"]);
    assert_eq!(stdout, file("2>", false));
    assert_eq!(stderr, None);
}
