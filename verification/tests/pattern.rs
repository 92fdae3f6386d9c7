use regex::Regex;
use time_logger::render::{cursor_column, input_line};
use time_logger::selector::{parse_buffer, Parsed};

#[test]
fn selector_is_a_trailing_backslash_and_digit() {
    let pattern = Regex::new(r"\\([0-9])$").unwrap();
    let samples = [
        "", "\\", "\\0", "\\9", "a\\5", "Al\\1", "\\12", "\\1 ", "\\1\n", "\\a", "\\q", "1", "\\\\3",
        "\\3\\", "text \\7", "/1", "\\١", "\\²", "☕\\4", "\\4☕", "\\q\\2", "\\2\\q",
    ];
    for text in samples {
        let expected = pattern.captures(text).map(|caps| caps[1].parse::<u8>().unwrap());
        let found = match parse_buffer(text) {
            Parsed::SelectIndex(d) => Some(d),
            Parsed::PlainText(_) | Parsed::Quit => None,
        };
        assert_eq!(found, expected);
    }
}

#[test]
fn quit_is_a_trailing_backslash_and_q() {
    for text in ["", "q", "\\", "\\q", "a\\q", "\\q ", "\\Q", "/q", "\\qq", "\\1\\q", "☕\\q"] {
        assert_eq!(parse_buffer(text) == Parsed::Quit, text.ends_with("\\q"));
    }
}

#[test]
fn input_line_shows_the_prompt_and_the_buffer() {
    assert_eq!(input_line(""), "> ");
    assert_eq!(input_line("Alpha"), "> Alpha");
    assert_eq!(input_line(" a☕"), ">  a☕");
}

#[test]
fn cursor_stands_behind_the_last_character() {
    assert_eq!(cursor_column(""), 2);
    assert_eq!(cursor_column("Alpha"), 7);
    assert_eq!(cursor_column("año ☕"), 7);
    let long = "x".repeat(70000);
    assert_eq!(cursor_column(&long), u16::MAX);
    let edge = "x".repeat(65533);
    assert_eq!(cursor_column(&edge), 65535);
    let under = "x".repeat(65532);
    assert_eq!(cursor_column(&under), 65534);
}
