use cythanc::text::{
    chars_of, decimal_string, is_whitespace_char, join_lines, join_spaces, parse_byte,
    replace_all, same_text, split_lines, split_words, text_contains, text_starts_with, trim,
};
use cythanc::utils::{hex_text, number_to_hex};

fn strings(list: &[&str]) -> Vec<String> {
    list.iter().map(|s| s.to_string()).collect()
}

#[test]
fn number_to_hex_is_the_upper_case_digit() {
    let expected = [
        '0', '1', '2', '3', '4', '5', '6', '7', '8', '9', 'A', 'B', 'C', 'D', 'E', 'F',
    ];
    for n in 0..16u8 {
        assert_eq!(number_to_hex(n), expected[n as usize]);
        assert_eq!(
            number_to_hex(n),
            char::from_digit(n as u32, 16).unwrap().to_ascii_uppercase()
        );
        assert_eq!(hex_text(n), expected[n as usize].to_string());
    }
}

#[test]
fn decimal_string_writes_the_numeral() {
    assert_eq!(decimal_string(0), "0");
    assert_eq!(decimal_string(9), "9");
    assert_eq!(decimal_string(10), "10");
    assert_eq!(decimal_string(255), "255");
    assert_eq!(decimal_string(1000), "1000");
    assert_eq!(decimal_string(usize::MAX), usize::MAX.to_string());
    for n in 0..2000usize {
        assert_eq!(decimal_string(n), n.to_string());
    }
}

#[test]
fn chars_of_lists_the_characters() {
    assert_eq!(chars_of(""), Vec::<char>::new());
    assert_eq!(chars_of("aé\u{3000}z"), vec!['a', 'é', '\u{3000}', 'z']);
}

#[test]
fn join_puts_the_separator_between_neighbours() {
    assert_eq!(join_spaces(&strings(&[])), "");
    assert_eq!(join_spaces(&strings(&["a"])), "a");
    assert_eq!(join_spaces(&strings(&["a", "b", "c"])), "a b c");
    assert_eq!(join_spaces(&strings(&["", ""])), " ");
    assert_eq!(join_lines(&strings(&["a", "", "c"])), "a\n\nc");
    assert_eq!(join_lines(&strings(&[])), "");
}

#[test]
fn same_text_compares_the_characters() {
    assert!(same_text("", ""));
    assert!(same_text("main", "main"));
    assert!(!same_text("main", "main "));
    assert!(!same_text("main", "mais"));
    assert!(!same_text("", "a"));
}

#[test]
fn text_starts_with_looks_at_the_front() {
    assert!(text_starts_with("# header CODE", "# header "));
    assert!(text_starts_with("abc", ""));
    assert!(text_starts_with("abc", "abc"));
    assert!(!text_starts_with("abc", "abcd"));
    assert!(!text_starts_with(" # header CODE", "# header "));
}

#[test]
fn text_contains_finds_a_piece_anywhere() {
    let cases = [
        ("", "", true),
        ("abc", "", true),
        ("", "a", false),
        ("abc", "abc", true),
        ("abc", "bc", true),
        ("abc", "abcd", false),
        ("aab", "ab", true),
        ("ab\ncd\n", "cd\n", true),
        ("ab\ncd", "cd\n", false),
        ("ééé", "éé", true),
    ];
    for (hay, needle, expected) in cases {
        assert_eq!(text_contains(hay, needle), expected, "{:?} in {:?}", needle, hay);
        assert_eq!(hay.contains(needle), expected);
    }
}

#[test]
fn split_words_leaves_the_empty_pieces_out() {
    let cases = [
        "",
        " ",
        "a",
        "set a b",
        "  set   a  b  ",
        "a\tb c",
        "call f &1 'x",
        "é  ü",
    ];
    for line in cases {
        let expected: Vec<String> = line
            .split(' ')
            .filter(|x| !x.is_empty())
            .map(|x| x.to_string())
            .collect();
        assert_eq!(split_words(line), expected, "{:?}", line);
    }
    assert_eq!(split_words("  set   a  b  "), strings(&["set", "a", "b"]));
}

#[test]
fn split_lines_splits_at_line_feeds() {
    let cases = ["", "a", "a\n", "\n", "a\nb", "a\n\nb\n", "a\r\nb"];
    for text in cases {
        let expected: Vec<String> = text.split('\n').map(|x| x.to_string()).collect();
        assert_eq!(split_lines(text), expected, "{:?}", text);
    }
    assert_eq!(split_lines("a\n\nb\n"), strings(&["a", "", "b", ""]));
}

#[test]
fn split_and_join_lines_give_the_text_back() {
    for text in ["", "a", "a\n", "\n\n", "a\nb\n\nc"] {
        assert_eq!(join_lines(&split_lines(text)), text);
    }
}

#[test]
fn replace_all_replaces_from_the_left() {
    let cases = [
        ("", "a", "b"),
        ("aaa", "a", "b"),
        ("aaa", "aa", "b"),
        ("set $x $xy $x", "$x", "f_in1"),
        ("abcabc", "bc", ""),
        ("abcabc", "abcabc", "x"),
        ("abc", "abcd", "x"),
        ("a\rb\r\n", "\r", ""),
        ("ababab", "aba", "c"),
        ("éaé", "é", "ee"),
    ];
    for (text, pattern, to) in cases {
        assert_eq!(
            replace_all(text, pattern, to),
            text.replace(pattern, to),
            "{:?} {:?} {:?}",
            text,
            pattern,
            to
        );
    }
    assert_eq!(replace_all("set $x $xy $x", "$x", "f_in1"), "set f_in1 f_in1y f_in1");
    assert_eq!(replace_all("abc", "", "x"), "abc");
    assert_eq!(replace_all("", "", "x"), "");
}

#[test]
fn is_whitespace_char_agrees_with_the_standard_library() {
    for code in 0..=0x10FFFFu32 {
        if let Some(c) = char::from_u32(code) {
            assert_eq!(is_whitespace_char(c), c.is_whitespace(), "U+{:X}", code);
        }
    }
}

#[test]
fn trim_cuts_the_white_space_off_both_ends() {
    let cases = [
        "",
        " ",
        "   ",
        "a",
        " a",
        "a ",
        "\t let x 0 \r",
        "\u{3000}a b\u{A0}",
        " a\u{85}",
        "a  b",
    ];
    for text in cases {
        assert_eq!(trim(text), text.trim(), "{:?}", text);
    }
    assert_eq!(trim("\t let x 0 \r"), "let x 0");
}

#[test]
fn parse_byte_agrees_with_the_standard_library() {
    let cases = [
        "", "+", "-", "0", "7", "+7", "-7", "++7", "007", "255", "256", "0255", "00000000256",
        "999999999999999999999999", "25a", "a25", " 25", "25 ", "+0", "-0", "1_0", "٣", "12.0",
        "0x10", "+255", "+256",
    ];
    for text in cases {
        assert_eq!(parse_byte(text), text.parse::<u8>().ok(), "{:?}", text);
    }
    for n in 0..300u32 {
        let text = n.to_string();
        assert_eq!(parse_byte(&text), text.parse::<u8>().ok());
    }
    assert_eq!(parse_byte("+12"), Some(12));
    assert_eq!(parse_byte("256"), None);
}
