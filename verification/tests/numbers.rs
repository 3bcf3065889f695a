use rust_shell::lines::{lines_of, unlines_from};
use rust_shell::numbers::{decimal_of, pad_left, pad_right, parse_i32, parse_usize};

#[test]
fn numbers_in_decimal() {
    for n in [0, 7, 9, 10, 42, 99, 100, 12345, u64::MAX] {
        assert_eq!(decimal_of(n), n.to_string());
    }
}

#[test]
fn signed_numbers_are_read() {
    for text in [
        "0", "7", "-7", "+7", "007", "-0", "2147483647", "-2147483648", "2147483648",
        "-2147483649", "99999999999999999999", "", "-", "+", "+-1", "1a", " 1", "1 ", "\u{661}",
        "1.0",
    ] {
        assert_eq!(parse_i32(text), text.parse::<i32>().ok(), "{}", text);
    }
    assert_eq!(parse_i32("-2147483648"), Some(i32::MIN));
    assert_eq!(parse_i32("2147483648"), None);
}

#[test]
fn unsigned_numbers_are_read() {
    for text in [
        "0", "7", "+7", "-7", "-0", "007", "18446744073709551615", "18446744073709551616",
        "184467440737095516150", "", "+", "-", "++1", "1a", "a1",
    ] {
        assert_eq!(parse_usize(text), text.parse::<usize>().ok(), "{}", text);
    }
    assert_eq!(parse_usize("+12"), Some(12));
    assert_eq!(parse_usize("-1"), None);
}

#[test]
fn columns_are_filled_with_blanks() {
    assert_eq!(pad_left("7", 5), "    7");
    assert_eq!(pad_right("Done", 6), "Done  ");
    assert_eq!(pad_left("123456", 5), "123456");
    assert_eq!(pad_right("", 2), "  ");
    assert_eq!(pad_left("\u{e9}", 3), "  \u{e9}");
}

#[test]
fn lines_end_with_a_line_feed() {
    for text in [
        "", "a", "a\n", "a\nb", "a\nb\n", "\n", "\n\n", "a\r\nb\r\n", "a\r", "a\rb\n", "\r\n",
        "a\r\r\n", "a\n\nb",
    ] {
        let expected: Vec<String> = text.lines().map(|l| l.to_string()).collect();
        assert_eq!(lines_of(text), expected, "{:?}", text);
    }
    assert_eq!(lines_of("a\r\n\nb\r"), vec!["a", "", "b\r"]);
}

#[test]
fn written_lines_are_read_back() {
    let list: Vec<String> = ["a b", "", "c\rd", "e"].iter().map(|s| s.to_string()).collect();
    assert_eq!(unlines_from(&list, 0), "a b\n\nc\rd\ne\n");
    assert_eq!(unlines_from(&list, 2), "c\rd\ne\n");
    assert_eq!(lines_of(&unlines_from(&list, 0)), list);
}
