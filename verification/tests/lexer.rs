use linkerland::lexer::{
    bracketed_index, hex_value, line_ending, parse_segment_or_section, rest_of_line, scan, spaces,
    CharClass, Input,
};
use winnow::ascii::{digit1, hex_digit1, multispace0, till_line_ending};
use winnow::combinator::{delimited, preceded};
use winnow::token::take_while;
use winnow::Parser;

const SAMPLES: [&str; 40] = [
    "",
    "abc",
    "abc\ndef",
    "abc\r\ndef",
    "abc\rdef",
    "\r",
    "\n",
    "\r\n",
    "\r\r\n",
    " \t\n x",
    "   ",
    "0x1F rest",
    "0x",
    "0xg",
    "0X1",
    "0x0x1",
    "0xdeadBEEF\t0x1",
    "x0x1",
    "[ 12] a",
    "[12]",
    "[\t\n 7]x",
    "[12",
    "[]",
    "[ a]",
    "[1 ]",
    "[-1]",
    "]1[",
    "__TEXT  x",
    "__text\t__data",
    "__",
    "___",
    "_a",
    "__\u{e9}",
    "__a-b",
    "__A1_b2 ",
    "\u{e9}t\u{e9}\nnext",
    "# Symbols:",
    "name with spaces\r\n",
    "\u{a0}x",
    "[ 1] path/to/file.o\n[ 2] other.o",
];

/// A token and what is left of the input behind it.
type Taken = Option<(String, String)>;

fn mine(input: &str, step: fn(&mut Input) -> Option<String>) -> Taken {
    let mut cursor = Input::new(input);
    let token = step(&mut cursor);
    let rest = cursor.remaining();
    if token.is_none() {
        assert_eq!(cursor.pos, 0, "a failed step moved the cursor on {:?}", input);
    }
    token.map(|t| (t, rest))
}

fn theirs<'i>(input: &'i str, result: winnow::Result<&'i str>, rest: &'i str) -> Taken {
    let _ = input;
    result.ok().map(|t| (t.to_string(), rest.to_string()))
}

#[test]
fn rest_of_line_agrees_with_winnow() {
    for sample in SAMPLES {
        let mut rest = sample;
        let result = till_line_ending.parse_next(&mut rest);
        assert_eq!(mine(sample, rest_of_line), theirs(sample, result, rest), "on {:?}", sample);
    }
}

#[test]
fn hex_value_agrees_with_winnow() {
    for sample in SAMPLES {
        let mut rest = sample;
        let result = preceded("0x", hex_digit1).take().parse_next(&mut rest);
        assert_eq!(mine(sample, hex_value), theirs(sample, result, rest), "on {:?}", sample);
    }
}

#[test]
fn bracketed_index_agrees_with_winnow() {
    for sample in SAMPLES {
        let mut rest = sample;
        let result = delimited('[', preceded(multispace0, digit1), ']').parse_next(&mut rest);
        assert_eq!(mine(sample, bracketed_index), theirs(sample, result, rest), "on {:?}", sample);
    }
}

#[test]
fn identifier_agrees_with_winnow() {
    for sample in SAMPLES {
        let mut rest = sample;
        let result = preceded(
            "__",
            take_while(1.., |c: char| c.is_ascii_alphanumeric() || c == '_'),
        )
        .take()
        .parse_next(&mut rest);
        assert_eq!(
            mine(sample, parse_segment_or_section),
            theirs(sample, result, rest),
            "on {:?}",
            sample
        );
    }
}

#[test]
fn spaces_agree_with_winnow() {
    for sample in SAMPLES {
        let mut rest = sample;
        let result: winnow::Result<&str> = multispace0.parse_next(&mut rest);
        assert!(result.is_ok());
        let mut cursor = Input::new(sample);
        spaces(&mut cursor);
        assert_eq!(cursor.remaining(), rest, "on {:?}", sample);
    }
}

#[test]
fn line_ending_agrees_with_winnow() {
    for sample in SAMPLES {
        let mut rest = sample;
        let result: winnow::Result<&str> = winnow::ascii::line_ending.parse_next(&mut rest);
        let mut cursor = Input::new(sample);
        let found = line_ending(&mut cursor);
        assert_eq!(found, result.is_ok(), "on {:?}", sample);
        if found {
            assert_eq!(cursor.remaining(), rest, "on {:?}", sample);
        } else {
            assert_eq!(cursor.pos, 0);
        }
    }
}

#[test]
fn literals() {
    let mut cursor = Input::new("# Path: x");
    assert!(!cursor.literal("# Arch:"));
    assert_eq!(cursor.pos, 0);
    assert!(cursor.literal("# Path:"));
    assert_eq!(cursor.pos, 7);
    assert!(cursor.literal(""));
    assert!(!cursor.literal(" xy"));
    assert!(cursor.literal(" x"));
    assert_eq!(cursor.remaining(), "");
    assert!(!cursor.literal("x"));
}

#[test]
fn runs_of_a_class() {
    let chars: Vec<char> = "12ab_Z \t\r\nx".chars().collect();
    assert_eq!(scan(&chars, 0, CharClass::Digit), 2);
    assert_eq!(scan(&chars, 0, CharClass::HexDigit), 4);
    assert_eq!(scan(&chars, 0, CharClass::Word), 6);
    assert_eq!(scan(&chars, 6, CharClass::Space), 10);
    assert_eq!(scan(&chars, 0, CharClass::Inline), 8);
    assert_eq!(scan(&chars, 0, CharClass::Space), 0);
    assert_eq!(scan(&chars, 11, CharClass::Digit), 11);
    assert_eq!(scan(&chars, 10, CharClass::Inline), 11);
    let mut cursor = Input::new("77x");
    assert_eq!(cursor.skip_run(CharClass::Digit), 2);
    assert_eq!(cursor.slice(0, 2), "77");
}
