use linked_list::text_counts::{count_characters, count_words_simple, is_white_space};

#[test]
fn test_words_count() {
    let text = "How old are you";
    let count: usize = count_words_simple(text);
    assert_eq!(count, 4);
}

#[test]
fn white_space_is_what_std_takes_for_it() {
    let mut code: u32 = 0;
    while code <= 0x10FFFF {
        if let Some(c) = char::from_u32(code) {
            assert_eq!(is_white_space(c), c.is_whitespace());
        }
        code += 1;
    }
}

#[test]
fn white_space_holds_blanks_and_line_ends() {
    assert!(is_white_space(' '));
    assert!(is_white_space('\t'));
    assert!(is_white_space('\n'));
    assert!(is_white_space('\r'));
    assert!(is_white_space('\u{A0}'));
    assert!(is_white_space('\u{3000}'));
    assert!(!is_white_space('a'));
    assert!(!is_white_space('0'));
    assert!(!is_white_space('_'));
    assert!(!is_white_space('\u{200B}'));
}

#[test]
fn words_of_an_empty_or_blank_text_are_none() {
    assert_eq!(count_words_simple(""), 0);
    assert_eq!(count_words_simple(" "), 0);
    assert_eq!(count_words_simple(" \t\r\n "), 0);
}

#[test]
fn words_are_runs_between_any_white_space() {
    assert_eq!(count_words_simple("one"), 1);
    assert_eq!(count_words_simple("  one  "), 1);
    assert_eq!(count_words_simple("one\ttwo\nthree   four"), 4);
    assert_eq!(count_words_simple(" a b  c "), 3);
    assert_eq!(count_words_simple("a\u{3000}b\u{A0}c"), 3);
    assert_eq!(count_words_simple("déjà vu"), 2);
}

#[test]
fn words_are_counted_as_std_splits_them() {
    let texts = [
        "",
        " ",
        "a",
        " a",
        "a ",
        "a b",
        "a  b",
        "\ta\nb\r\nc ",
        "x\u{2003}y",
        "über alles ",
    ];
    for text in texts {
        assert_eq!(count_words_simple(text), text.split_whitespace().count());
    }
}

#[test]
fn count_characters_leaves_white_space_out() {
    assert_eq!(count_characters("How old are you"), 12);
    assert_eq!(count_characters(""), 0);
    assert_eq!(count_characters(" \t\n"), 0);
    assert_eq!(count_characters("a b\tc\nd"), 4);
}

#[test]
fn count_characters_counts_characters_not_bytes() {
    assert_eq!(count_characters("déjà vu"), 6);
    assert_eq!(count_characters("日本語\u{3000}テキスト"), 7);
}
