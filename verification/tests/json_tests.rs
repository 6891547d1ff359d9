use lib::jsonread::{read_string, scan_number, skip_space};
use lib::jsontext::{push_quoted, ParseError};

fn read(text: &str) -> Result<(String, usize), ParseError> {
    read_string(text.as_bytes(), 0)
}

#[test]
fn string_literals_with_escapes() {
    let text = "\"hello\\nworld\\t\\\"quoted\\\"\"";
    let (s, next) = read(text).unwrap();
    assert_eq!(s, "hello\nworld\t\"quoted\"");
    assert_eq!(next, text.len());
    assert_eq!(read("\"a\\/b\\\\c\\b\\f\\r\"").unwrap().0, "a/b\\c\u{8}\u{c}\r");
    assert_eq!(read("\"x\" tail").unwrap(), ("x".to_string(), 3));
    assert_eq!(read_string(b"[\"k\"]", 1).unwrap(), ("k".to_string(), 4));
}

#[test]
fn unicode_escapes_and_surrogate_pairs() {
    assert_eq!(read("\"\\u0041\\u00e9\"").unwrap().0, "A\u{e9}");
    assert_eq!(read("\"\\ud83d\\ude00\"").unwrap().0, "\u{1F600}");
    assert_eq!(read("\"\\udc00\"").unwrap_err(), ParseError::InvalidUnicode(7));
    assert_eq!(read("\"\\ud83dx\"").unwrap_err(), ParseError::UnexpectedChar(7, 'x'));
    assert_eq!(read("\"\\ud83d\\u0041\"").unwrap_err(), ParseError::InvalidUnicode(13));
    assert_eq!(read("\"\\u12g4\"").unwrap_err(), ParseError::InvalidUnicode(5));
    assert_eq!(read("\"\\u12").unwrap_err(), ParseError::UnexpectedEof);
}

#[test]
fn string_literal_errors() {
    assert_eq!(read("abc").unwrap_err(), ParseError::UnexpectedChar(0, 'a'));
    assert_eq!(read("").unwrap_err(), ParseError::UnexpectedEof);
    assert_eq!(read("\"abc").unwrap_err(), ParseError::UnexpectedEof);
    assert_eq!(read("\"a\\").unwrap_err(), ParseError::UnexpectedEof);
    assert_eq!(read("\"\\q\"").unwrap_err(), ParseError::InvalidEscape(2));
}

#[test]
fn bytes_outside_escapes_stand_for_their_codes() {
    // The two UTF-8 bytes of 'é' are read as two characters.
    let (s, _) = read("\"\u{e9}\"").unwrap();
    assert_eq!(s, "\u{c3}\u{a9}");
}

#[test]
fn quoted_ascii_reads_back() {
    for plain in ["hello\nworld\t\"quoted\"", "", "back\\slash", "ctl\u{1}\u{1f}end", "plain text"] {
        let mut text = String::new();
        push_quoted(&mut text, plain);
        let (s, next) = read(&text).unwrap();
        assert_eq!(s, plain);
        assert_eq!(next, text.len());
    }
}

#[test]
fn number_extents() {
    assert_eq!(scan_number(b"123,", 0), Ok(3));
    assert_eq!(scan_number(b"-0.5e+10]", 0), Ok(8));
    assert_eq!(scan_number(b"0123", 0), Ok(1));
    assert_eq!(scan_number(b"1.5E3", 0), Ok(5));
    assert_eq!(scan_number(b"[42]", 1), Ok(3));
    assert_eq!(scan_number(b"-", 0), Err(ParseError::InvalidNumber(0)));
    assert_eq!(scan_number(b"1.", 0), Err(ParseError::InvalidNumber(0)));
    assert_eq!(scan_number(b"x 1e+", 2), Err(ParseError::InvalidNumber(2)));
    assert_eq!(scan_number(b"abc", 0), Err(ParseError::InvalidNumber(0)));
}

#[test]
fn whitespace_skipping() {
    assert_eq!(skip_space(b" \t\n\r x", 0), 5);
    assert_eq!(skip_space(b"x", 0), 0);
    assert_eq!(skip_space(b"  ", 0), 2);
    assert_eq!(skip_space(b"ab  ", 2), 4);
}
