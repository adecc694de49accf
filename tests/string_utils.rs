use wire_world::string_utils::{
    split_line_by_limit, split_text_into_words, stretch_text, trim_string_until_splitter,
};

#[test]
fn split_text_by_limit_splits_correctly() {
    let text = "Hello, Число!";
    let limit = 6;
    let expected = vec!["Hello,", "Число!"];
    assert_eq!(split_line_by_limit(&text, limit), expected);
}

#[test]
fn split_text_by_limit_handles_empty_string() {
    let text = "";
    let limit = 5;
    let expected: Vec<String> = Vec::new();
    assert_eq!(split_line_by_limit(&text, limit), expected);
}

#[test]
fn split_text_by_limit_handles_limit_greater_than_text_length() {
    let text = "Hello";
    let limit = 10;
    let expected = vec!["Hello"];
    assert_eq!(split_line_by_limit(&text, limit), expected);
}

#[test]
fn split_text_by_limit_handles_limit_equal_to_text_length() {
    let text = "Hello";
    let limit = 5;
    let expected = vec!["Hello"];
    assert_eq!(split_line_by_limit(&text, limit), expected);
}

#[test]
fn split_text_by_limit_handles_limit_less_than_word_length() {
    let text = "Hello, Число!";
    let limit = 3;
    let expected = vec!["Hel", "lo,", "Чис", "ло!"];
    assert_eq!(split_line_by_limit(&text, limit), expected);
}

#[test]
fn split_text_by_limit_trimming_extra_spaces() {
    let text = "Hello,     Число!";
    let limit = 6;
    let expected = vec!["Hello,", "Число!"];
    assert_eq!(split_line_by_limit(&text, limit), expected);
}

#[test]
fn find_splitter_finds_space() {
    let text = "Hello, World";
    let expected = Some("Hello,");
    assert_eq!(trim_string_until_splitter(&text), expected);
}

#[test]
fn find_splitter_finds_space_at_last_position() {
    let text = "Hello, World ";
    let expected = Some("Hello, World");
    assert_eq!(trim_string_until_splitter(&text), expected);
}

#[test]
fn find_splitter_special_symbol() {
    let text = "Hello,World";
    let expected = Some("Hello,");
    assert_eq!(trim_string_until_splitter(&text), expected);
}

#[test]
fn not_found_splitter() {
    let text = "HelloWorld";
    let expected = None;
    assert_eq!(trim_string_until_splitter(&text), expected);
}

#[test]
fn find_splitter_with_cyrillic_characters() {
    let text = "Привет, Мир";
    let expected = Some("Привет,");
    assert_eq!(trim_string_until_splitter(&text), expected);
}

#[test]
fn stretch_text_if_witdh_approach_to_max_length() {
    let text = "Привет,Мир";
    let expected = "Привет,  Мир";
    assert_eq!(stretch_text(&text, 12), expected);
}

#[test]
fn dont_stretch_text_if_witdh_too_little() {
    let text = "Привет, Мир";
    let expected = "Привет, Мир";
    assert_eq!(stretch_text(&text, 20), expected);
}

#[test]
fn split_text_into_words_splits_on_whitespace_and_divided_marks() {
    let text = "Hello, world!";
    let expected = vec!["Hello,", "world!"];
    assert_eq!(split_text_into_words(text), expected);
}

#[test]
fn split_text_into_cyrillic_words_splits_on_whitespace_and_divided_marks() {
    let text = "Привет, мир!";
    let expected = vec!["Привет,", "мир!"];
    assert_eq!(split_text_into_words(text), expected);
}

#[test]
fn split_text_into_words_handles_empty_string() {
    let text = "";
    let expected: Vec<&str> = vec![""];
    assert_eq!(split_text_into_words(text), expected);
}

#[test]
fn split_text_into_words_handles_string_with_no_divided_marks() {
    let text = "Hello world";
    let expected = vec!["Hello ", "world"];
    assert_eq!(split_text_into_words(text), expected);
}

#[test]
fn split_text_into_words_handles_string_with_only_divided_marks() {
    let text = ",.!?:;])}>";
    let expected: Vec<&str> = vec![",.!?:;])}>"];
    assert_eq!(split_text_into_words(text), expected);
}

#[test]
fn split_text_into_words_handles_string_with_consecutive_divided_marks() {
    let text = "Hello,, world!!";
    let expected = vec!["Hello,,", "world!!"];
    assert_eq!(split_text_into_words(text), expected);
}

#[test]
fn stretch_text_shares_spaces_among_gaps() {
    // words keep their spaces: 11 characters, 3 gaps, 2 spaces for the first two gaps
    assert_eq!(stretch_text("ab cd ef gh", 13), "ab  cd  ef gh");
}

#[test]
fn stretch_text_keeps_long_text() {
    assert_eq!(stretch_text("abcdef", 5), "abcdef");
}

#[test]
fn split_line_by_limit_keeps_trailing_spaces() {
    assert_eq!(split_line_by_limit("ab   ", 2), vec!["ab", "   "]);
}

#[test]
fn split_line_by_limit_zero_on_empty_text() {
    let expected: Vec<String> = Vec::new();
    assert_eq!(split_line_by_limit("", 0), expected);
}
