use azure_gateway::text::{blank, decimal_of, log_text_of, parse_natural, solid_lines, split_lines};

const TEXTS: [&str; 22] = [
    "",
    "\n",
    "\r",
    "\r\n",
    "\n\n",
    "a",
    "a\n",
    "a\r\n",
    "a\r",
    "a\rb",
    "a\r\r\n",
    "a\nb",
    "a\nb\n",
    "a\r\nb\r\n",
    "\na\n\nb\n\n",
    "  \n\t\nx\n",
    "\u{85}\n\u{2028}\n\u{200B}\n",
    "h\u{e9}llo\nw\u{f6}rld",
    "a\n\rb",
    "\r\r\r",
    "\n\r\n\r",
    "one\ntwo\r\nthree\rfour\n",
];

#[test]
fn lines_are_those_of_the_standard_library() {
    for text in TEXTS {
        let expected: Vec<String> = text.lines().map(|l| l.to_string()).collect();
        assert_eq!(split_lines(text), expected, "{text:?}");
    }
}

#[test]
fn blank_lines_are_dropped() {
    for text in TEXTS {
        let expected: Vec<String> = text
            .lines()
            .filter(|l| !l.trim().is_empty())
            .map(|l| l.to_string())
            .collect();
        assert_eq!(solid_lines(text), expected, "{text:?}");
    }
}

#[test]
fn white_space_is_that_of_unicode() {
    for code in 0..0x3100u32 {
        if let Some(c) = char::from_u32(code) {
            let mut s = String::new();
            s.push(c);
            assert_eq!(blank(&s), c.is_whitespace(), "{code:x}");
        }
    }
    assert!(blank(""));
    assert!(!blank(" \tx "));
}

#[test]
fn numbers_are_written_in_decimal() {
    for n in [0i64, 1, 9, 10, 99, 100, 472_222, -1, -10, -472_222, i64::MAX, i64::MIN] {
        assert_eq!(decimal_of(n), format!("{n}"));
    }
}

#[test]
fn a_number_in_decimal_reads_back() {
    for n in [0i64, 7, 10, 1_700_000_000, i64::MAX] {
        assert_eq!(parse_natural(&decimal_of(n)), Some(n as u64));
    }
    assert_eq!(parse_natural(&decimal_of(-7)), None);
}

#[test]
fn a_log_ends_each_line() {
    assert_eq!(log_text_of(&vec![]), "");
    assert_eq!(log_text_of(&vec!["".to_string()]), "");
    assert_eq!(log_text_of(&vec!["a".to_string()]), "a\n");
    assert_eq!(log_text_of(&vec!["".to_string(), "".to_string()]), "\n\n");
    assert_eq!(log_text_of(&vec!["a".to_string(), "b".to_string()]), "a\nb\n");
}

#[test]
fn a_log_reads_back_line_for_line() {
    let all: Vec<String> = vec!["{\"a\":1}".to_string(), " x".to_string(), "\u{e9}".to_string()];
    let text = log_text_of(&all);
    assert_eq!(text, "{\"a\":1}\n x\n\u{e9}\n");
    assert_eq!(split_lines(&text), all);
    assert_eq!(solid_lines(&text), all);
}
