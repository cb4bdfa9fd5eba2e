use discord_capture_limiter::text::{
    chars_of, decode, find_char, format_u32, parse_u32, same_text, starts_with, strip, trim,
    CharClass,
};

fn text_chars(s: &str) -> Vec<char> {
    s.chars().collect()
}

fn text_of(chars: &[char]) -> String {
    chars.iter().collect()
}

#[test]
fn char_classes_hold_their_characters() {
    for c in [' ', '\t', '\n', '\u{b}', '\u{c}', '\r', '\u{85}', '\u{a0}', '\u{1680}', '\u{2000}',
        '\u{2005}', '\u{200a}', '\u{2028}', '\u{2029}', '\u{202f}', '\u{205f}', '\u{3000}']
    {
        assert!(CharClass::Whitespace.contains(c), "{:?}", c);
        assert!(c.is_whitespace());
        assert!(!CharClass::Quote.contains(c));
    }
    for c in ['a', '0', '"', '\u{8}', '\u{e}', '\u{200b}', '\u{180e}', '\u{feff}', '\u{1f}'] {
        assert!(!CharClass::Whitespace.contains(c), "{:?}", c);
        assert!(!c.is_whitespace());
    }
    assert!(CharClass::Quote.contains('"'));
    assert!(!CharClass::Quote.contains('\''));
}

#[test]
fn whitespace_class_agrees_with_std_on_every_char() {
    let mut code: u32 = 0;
    while code <= 0x10ffff {
        if let Some(c) = char::from_u32(code) {
            assert_eq!(CharClass::Whitespace.contains(c), c.is_whitespace(), "U+{:04X}", code);
        }
        code += 1;
    }
}

#[test]
fn find_char_gives_first_position_or_length() {
    assert_eq!(find_char(&text_chars("a,b,c"), ','), 1);
    assert_eq!(find_char(&text_chars(",a"), ','), 0);
    assert_eq!(find_char(&text_chars("abc"), ','), 3);
    assert_eq!(find_char(&text_chars(""), ','), 0);
}

#[test]
fn starts_with_compares_the_beginning() {
    assert!(starts_with(&text_chars("id 75"), &text_chars("id ")));
    assert!(starts_with(&text_chars("id "), &text_chars("id ")));
    assert!(starts_with(&text_chars("abc"), &text_chars("")));
    assert!(!starts_with(&text_chars("id"), &text_chars("id ")));
    assert!(!starts_with(&text_chars(" id 75"), &text_chars("id ")));
    assert!(!starts_with(&text_chars("ie 75"), &text_chars("id ")));
}

#[test]
fn trim_removes_white_space_at_both_ends_only() {
    assert_eq!(text_of(trim(&text_chars("  \t id 5 \r"))), "id 5");
    assert_eq!(text_of(trim(&text_chars("\u{a0}x y\u{3000}"))), "x y");
    assert_eq!(text_of(trim(&text_chars(" \t\r\n "))), "");
    assert_eq!(text_of(trim(&text_chars(""))), "");
    assert_eq!(text_of(trim(&text_chars("abc"))), "abc");
    for s in ["  a b  ", "\ta", "a\n", " ", "", "\u{2003}q\u{2003}", "x"] {
        assert_eq!(text_of(trim(&text_chars(s))), s.trim());
    }
}

#[test]
fn strip_quotes_removes_every_quote_at_both_ends() {
    assert_eq!(text_of(strip(&text_chars("\"abc\""), CharClass::Quote)), "abc");
    assert_eq!(text_of(strip(&text_chars("\"\"a\"b\"\""), CharClass::Quote)), "a\"b");
    assert_eq!(text_of(strip(&text_chars("\""), CharClass::Quote)), "");
    assert_eq!(text_of(strip(&text_chars("\"\""), CharClass::Quote)), "");
    assert_eq!(text_of(strip(&text_chars(" \"a\" "), CharClass::Quote)), " \"a\" ");
    assert_eq!(text_of(strip(&text_chars("abc"), CharClass::Quote)), "abc");
}

#[test]
fn parse_u32_reads_plain_decimal_numbers() {
    assert_eq!(parse_u32(&text_chars("75")), Some(75));
    assert_eq!(parse_u32(&text_chars("0")), Some(0));
    assert_eq!(parse_u32(&text_chars("+75")), Some(75));
    assert_eq!(parse_u32(&text_chars("007")), Some(7));
    assert_eq!(parse_u32(&text_chars("4294967295")), Some(u32::MAX));
    assert_eq!(parse_u32(&text_chars("04294967295")), Some(u32::MAX));
}

#[test]
fn parse_u32_rejects_everything_else() {
    for s in ["", "+", "-", "-1", "-0", "++1", "+-1", " 7", "7 ", "7a", "a7", "0x10", "1_000",
        "4294967296", "42949672950", "99999999999999999999", "\u{663}", "1.0"]
    {
        assert_eq!(parse_u32(&text_chars(s)), None, "{:?}", s);
    }
}

#[test]
fn parse_u32_agrees_with_std() {
    for s in ["75", "+75", "", "+", "-1", "007", "4294967295", "4294967296", " 7", "7a", "1e3",
        "4294967290", "4294967299", "429496729", "+0", "+00", "0+"]
    {
        assert_eq!(parse_u32(&text_chars(s)), s.parse::<u32>().ok(), "{:?}", s);
    }
}

#[test]
fn format_u32_writes_decimal_digits() {
    assert_eq!(format_u32(0), "0");
    assert_eq!(format_u32(7), "7");
    assert_eq!(format_u32(10), "10");
    assert_eq!(format_u32(75), "75");
    assert_eq!(format_u32(1520), "1520");
    assert_eq!(format_u32(4294967295), "4294967295");
}

#[test]
fn digits_written_are_read_back() {
    for n in [0u32, 1, 9, 10, 11, 99, 100, 101, 75, 1520, 65535, 65536, 999999999, 1000000000,
        4294967294, 4294967295]
    {
        assert_eq!(parse_u32(&text_chars(&format_u32(n))), Some(n));
        assert_eq!(format_u32(n), n.to_string());
    }
}

#[test]
fn chars_of_lists_the_characters() {
    assert_eq!(chars_of("id 7"), vec!['i', 'd', ' ', '7']);
    assert_eq!(chars_of(""), Vec::<char>::new());
    assert_eq!(chars_of("h\u{e9}\u{3000}"), vec!['h', '\u{e9}', '\u{3000}']);
}

#[test]
fn same_text_compares_character_by_character() {
    assert!(same_text(&text_chars("abc"), &text_chars("abc")));
    assert!(same_text(&text_chars(""), &text_chars("")));
    assert!(!same_text(&text_chars("abc"), &text_chars("abd")));
    assert!(!same_text(&text_chars("abc"), &text_chars("ab")));
    assert!(!same_text(&text_chars("ab"), &text_chars("abc")));
}

#[test]
fn decode_accepts_well_formed_utf8_only() {
    assert_eq!(decode(b"id 7"), Ok("id 7"));
    assert_eq!(decode(b""), Ok(""));
    assert_eq!(decode(&[0x68, 0xc3, 0xa9]), Ok("h\u{e9}"));
    assert_eq!(decode(&[0xe3, 0x80, 0x80]), Ok("\u{3000}"));
    for bytes in [vec![0xffu8], vec![0x68, 0xc3], vec![0xc0, 0x80], vec![0xed, 0xa0, 0x80],
        vec![0xf4, 0x90, 0x80, 0x80]]
    {
        assert!(decode(&bytes).is_err(), "{:?}", bytes);
        assert_eq!(decode(&bytes), std::str::from_utf8(&bytes));
    }
    assert_eq!(decode(&[0x68, 0x69, 0xff]).unwrap_err().valid_up_to(), 2);
}
