use rust_shell::history::History;

fn with(entries: &[&str]) -> History {
    let mut h = History::new();
    for entry in entries {
        h.push(entry);
    }
    h
}

#[test]
fn entries_are_numbered_from_one() {
    let h = with(&["echo a", "ls", "history"]);
    assert_eq!(h.all(), "    1  echo a\n    2  ls\n    3  history\n");
}

#[test]
fn the_last_entries_keep_their_numbers() {
    let h = with(&["a", "b", "c"]);
    assert_eq!(h.last(2), "    2  b\n    3  c\n");
    assert_eq!(h.last(0), "");
    assert_eq!(h.last(3), h.all());
    assert_eq!(h.last(usize::MAX), h.all());
}

#[test]
fn an_empty_history_prints_nothing() {
    assert_eq!(History::new().all(), "");
    assert_eq!(History::new().last(3), "");
    assert_eq!(History::new().content(), "");
}

#[test]
fn only_new_entries_are_added_to_a_file() {
    let mut h = with(&["a", "b"]);
    assert_eq!(h.unsaved_content(), "a\nb\n");
    h.mark_saved();
    assert_eq!(h.unsaved_content(), "");
    h.push("c");
    assert_eq!(h.unsaved_content(), "c\n");
    assert_eq!(h.content(), "a\nb\nc\n");
}

#[test]
fn adding_in_steps_leaves_the_same_file() {
    let mut h = with(&["a", "b"]);
    let mut file = h.unsaved_content();
    h.mark_saved();
    h.push("c");
    h.push("d");
    file.push_str(&h.unsaved_content());
    assert_eq!(file, with(&["a", "b", "c", "d"]).unsaved_content());
}

#[test]
fn a_history_file_is_read_back() {
    let h = with(&["echo 'a b'", "", "ls | wc"]);
    let mut copy = History::new();
    copy.read(&h.content());
    assert_eq!(copy.entries(), h.entries());
}

#[test]
fn lines_of_a_file_come_after_the_entries() {
    let mut h = with(&["a"]);
    h.mark_saved();
    h.read("b\r\nc");
    assert_eq!(h.entries(), &vec!["a", "b", "c"]);
    assert_eq!(h.unsaved_content(), "b\nc\n");
}
