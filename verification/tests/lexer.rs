use rust_shell::lexer::{expand_var, is_valid_identifier, tokenize};
use rust_shell::table::Table;

fn table(entries: &[(&str, &str)]) -> Table {
    let mut t = Table::new();
    for (name, value) in entries {
        t.set(name.to_string(), value.to_string());
    }
    t
}

fn split(line: &str) -> Vec<String> {
    tokenize(line, &Table::new())
}

fn split_with(line: &str, entries: &[(&str, &str)]) -> Vec<String> {
    tokenize(line, &table(entries))
}

#[test]
fn splits_at_blanks() {
    assert_eq!(split("echo a  b"), vec!["echo", "a", "b"]);
    assert_eq!(split("  echo\ta \n"), vec!["echo", "a"]);
}

#[test]
fn splits_at_white_space_beyond_ascii() {
    assert_eq!(split("a\u{a0}b\u{2003}c"), vec!["a", "b", "c"]);
    assert_eq!(split("a\u{200b}b"), vec!["a\u{200b}b"]);
}

#[test]
fn white_space_is_known_and_stands_in_no_name() {
    let mut found: Vec<u32> = Vec::new();
    for n in 0..=0x10ffff {
        let Some(c) = char::from_u32(n) else {
            continue;
        };
        let text = c.to_string();
        if split(&format!("a{}b", text)).len() == 2 {
            found.push(n);
            assert!(!is_valid_identifier(&format!("a{}", text)));
        }
    }
    let mut expected: Vec<u32> = (9..=13).collect();
    expected.extend([0x20, 0x85, 0xa0, 0x1680]);
    expected.extend(0x2000..=0x200a);
    expected.extend([0x2028, 0x2029, 0x202f, 0x205f, 0x3000]);
    assert_eq!(found, expected);
}

#[test]
fn lines_can_be_joined_at_white_space() {
    let vars = [("A", "x y"), ("E", "")];
    let lines = [
        "", "a b", "'a b'", "\"$A\"", "$A", "$E", "${A}b", "$", "a\\ ", "\"a\\\" ${A}\"", "''",
    ];
    for a in lines {
        for w in [" ", "\t\n", "\u{3000}"] {
            for b in ["", "c", "'d", "$A", "\\", "\"${A"] {
                let mut both = split_with(a, &vars);
                both.extend(split_with(b, &vars));
                assert_eq!(split_with(&format!("{}{}{}", a, w, b), &vars), both);
            }
        }
    }
}

#[test]
fn an_empty_line_has_no_words() {
    assert!(split("").is_empty());
    assert!(split(" \t ").is_empty());
}

#[test]
fn single_quotes_are_literal() {
    assert_eq!(split("echo 'hello   world'"), vec!["echo", "hello   world"]);
    assert_eq!(split_with("'$A \\n \"'", &[("A", "x")]), vec!["$A \\n \""]);
    assert_eq!(split("''"), vec![""]);
}

#[test]
fn quoted_words_come_back_as_they_were() {
    assert_eq!(split("'a b' '' '$x' '|'"), vec!["a b", "", "$x", "|"]);
}

#[test]
fn double_quotes_keep_blanks() {
    assert_eq!(split("echo \"a  b\""), vec!["echo", "a  b"]);
    assert_eq!(split("\"it's\""), vec!["it's"]);
    assert_eq!(split("\"\""), vec![""]);
}

#[test]
fn double_quotes_let_a_backslash_escape_four_characters() {
    assert_eq!(split("\"\\\" \\\\ \\$A \\`\""), vec!["\" \\ $A `"]);
}

#[test]
fn double_quoted_words_come_back_as_they_were() {
    assert_eq!(split("\"a b\" \"\" \"it's \\$x\" \"\\\"|\\\\\""), vec!["a b", "", "it's $x", "\"|\\"]);
}

#[test]
fn double_quotes_keep_other_backslashes() {
    assert_eq!(split("\"a\\nb\\'\""), vec!["a\\nb\\'"]);
}

#[test]
fn a_backslash_escapes_any_character_outside_quotes() {
    assert_eq!(split("a\\ b"), vec!["a b"]);
    assert_eq!(split("\\'\\\"\\$\\\\\\n"), vec!["'\"$\\n"]);
    assert_eq!(split("\\ "), vec![" "]);
}

#[test]
fn a_backslash_at_the_end_is_dropped() {
    assert!(split("\\").is_empty());
    assert_eq!(split("a\\"), vec!["a"]);
}

#[test]
fn pieces_make_one_word() {
    assert_eq!(split("a'b c'\"d e\"\\ f"), vec!["ab cd e f"]);
    assert_eq!(split("''a''"), vec!["a"]);
}

#[test]
fn quotes_that_are_not_closed_end_with_the_line() {
    assert_eq!(split("echo 'a b"), vec!["echo", "a b"]);
    assert_eq!(split("echo \"a b"), vec!["echo", "a b"]);
    assert_eq!(split("'"), vec![""]);
    assert_eq!(split("\"a\\"), vec!["a\\"]);
}

#[test]
fn a_number_sign_is_an_ordinary_character() {
    assert_eq!(split("echo # a"), vec!["echo", "#", "a"]);
}

#[test]
fn both_parameter_forms_expand() {
    let vars = [("NAME", "world")];
    assert_eq!(split_with("$NAME ${NAME}", &vars), vec!["world", "world"]);
    assert_eq!(split_with("a${NAME}b $NAME-x", &vars), vec!["aworldb", "world-x"]);
}

#[test]
fn a_parameter_expands_between_double_quotes() {
    let vars = [("NAME", "world")];
    assert_eq!(split_with("echo \"hello $NAME\"", &vars), vec!["echo", "hello world"]);
    assert_eq!(split_with("\"${NAME}s\"", &vars), vec!["worlds"]);
    assert_eq!(split_with("\"$NONE\"", &vars), vec![""]);
}

#[test]
fn a_value_is_not_split_again() {
    let vars = [("A", "x  y 'z' | $B")];
    assert_eq!(split_with("$A", &vars), vec!["x  y 'z' | $B"]);
}

#[test]
fn the_longest_name_is_taken() {
    let vars = [("A", "1"), ("AB", "2"), ("AB_3", "3")];
    assert_eq!(split_with("$AB_3 $AB $A.B", &vars), vec!["3", "2", "1.B"]);
}

#[test]
fn names_can_hold_letters_beyond_ascii() {
    let vars = [("\u{e9}\u{2163}", "x")];
    assert_eq!(split_with("$\u{e9}\u{2163}", &vars), vec!["x"]);
    assert_eq!(split_with("$\u{2192}", &vars), vec!["$\u{2192}"]);
}

#[test]
fn an_unset_variable_makes_no_word() {
    assert_eq!(split("echo $NONE ${NONE} x"), vec!["echo", "x"]);
    assert_eq!(split("a${NONE}b"), vec!["ab"]);
}

#[test]
fn an_all_empty_word_is_dropped() {
    let vars = [("E", "")];
    assert_eq!(split_with("echo $E$NONE${E} x", &vars), vec!["echo", "x"]);
    assert_eq!(split_with("$E''", &vars), vec![""]);
}

#[test]
fn a_dollar_without_a_name_is_literal() {
    assert_eq!(split("$ a$ $. \"$\" ${}"), vec!["$", "a$", "$.", "$", "$"]);
}

#[test]
fn braces_that_are_not_closed_take_the_rest() {
    let vars = [("A b", "x"), ("A", "y")];
    assert_eq!(split_with("${A b", &vars), vec!["x"]);
    assert_eq!(split_with("${A", &vars), vec!["y"]);
    assert_eq!(split_with("${", &vars), vec!["$"]);
}

#[test]
fn an_expansion_moves_past_the_parameter() {
    let vars = table(&[("A", "one"), ("E", "")]);
    let chars: Vec<char> = "A-${E}x".chars().collect();
    let mut current = "<".to_string();
    let mut pos = 0;
    assert!(expand_var(&chars, &mut pos, &mut current, &vars));
    assert_eq!((pos, current.as_str()), (1, "<one"));
    pos = 3;
    assert!(!expand_var(&chars, &mut pos, &mut current, &vars));
    assert_eq!((pos, current.as_str()), (6, "<one"));
    pos = 7;
    assert!(expand_var(&chars, &mut pos, &mut current, &vars));
    assert_eq!((pos, current.as_str()), (7, "<one$"));
}

#[test]
fn identifiers_begin_with_a_letter_or_an_underscore() {
    assert!(is_valid_identifier("a"));
    assert!(is_valid_identifier("_"));
    assert!(is_valid_identifier("_a1"));
    assert!(is_valid_identifier("\u{e9}1"));
    assert!(is_valid_identifier("a\u{2163}"));
    assert!(!is_valid_identifier(""));
    assert!(!is_valid_identifier("1a"));
    assert!(!is_valid_identifier("\u{bd}"));
    assert!(!is_valid_identifier("a-b"));
    assert!(!is_valid_identifier("a b"));
}

#[test]
fn a_table_holds_the_last_text_of_a_name() {
    let mut t = table(&[("a", "1"), ("b", "2"), ("a", "3")]);
    assert_eq!(t.get("a").map(|s| s.as_str()), Some("3"));
    assert_eq!(t.get("b").map(|s| s.as_str()), Some("2"));
    t.remove("a");
    assert!(t.get("a").is_none());
    assert_eq!(t.get("b").map(|s| s.as_str()), Some("2"));
}
