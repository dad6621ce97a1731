use serial_gateway::text::{decimal_text, pad_right, parse_u16, split_words, to_chars, trim};

#[test]
fn white_space_is_the_unicode_property() {
    for u in 0..=0x10FFFFu32 {
        if let Some(c) = char::from_u32(u) {
            let expected = matches!(
                u,
                0x09..=0x0D
                    | 0x20
                    | 0x85
                    | 0xA0
                    | 0x1680
                    | 0x2000..=0x200A
                    | 0x2028
                    | 0x2029
                    | 0x202F
                    | 0x205F
                    | 0x3000
            );
            assert_eq!(c.is_whitespace(), expected);
        }
    }
}

#[test]
fn trim_takes_white_space_from_both_ends() {
    assert_eq!(trim("  a b\t\r\n"), "a b");
    assert_eq!(trim("\u{A0}\u{3000}a\u{2003}"), "a");
    assert_eq!(trim("a"), "a");
    assert_eq!(trim(""), "");
    assert_eq!(trim(" \n "), "");
    assert_eq!(trim(" h\u{E9} "), "h\u{E9}");
}

#[test]
fn trim_agrees_with_std() {
    let samples = ["", " ", "x", " x", "x ", " x y ", "\u{B}x\u{85}", "\u{200B}x", "\u{1680}\u{202F}q\u{205F}"];
    for s in samples {
        assert_eq!(trim(s), s.trim());
    }
}

#[test]
fn words_are_split_at_white_space() {
    assert_eq!(split_words(" ab  c\tde "), vec!["ab", "c", "de"]);
    assert_eq!(split_words("ab"), vec!["ab"]);
    assert!(split_words("").is_empty());
    assert!(split_words(" \u{2028}").is_empty());
    assert_eq!(split_words("\u{E4}\u{2009}\u{F6}"), vec!["\u{E4}", "\u{F6}"]);
}

#[test]
fn chars_keep_their_order() {
    assert_eq!(to_chars("a\u{E9}\u{1F600}"), vec!['a', '\u{E9}', '\u{1F600}']);
}

#[test]
fn numbers_are_written_in_decimal() {
    assert_eq!(decimal_text(0), "0");
    assert_eq!(decimal_text(9), "9");
    assert_eq!(decimal_text(10), "10");
    assert_eq!(decimal_text(1234567890), "1234567890");
    assert_eq!(decimal_text(u64::MAX), "18446744073709551615");
}

#[test]
fn numbers_are_read_as_std_reads_them() {
    let samples = [
        "0", "7", "007", "+7", "+", "", "-", "-0", "-1", "65535", "65536", "0065535", "99999999999999999999", "1a",
        "a1", " 1", "1 ", "1.0", "+-1", "++1", "\u{661}", "0x10", "1_0",
    ];
    for s in samples {
        assert_eq!(parse_u16(s), s.parse::<u16>().ok());
    }
}

#[test]
fn a_number_written_is_read_back() {
    for v in 0..=u16::MAX {
        assert_eq!(parse_u16(&decimal_text(v as u64)), Some(v));
    }
}

#[test]
fn padding_fills_the_field_with_spaces() {
    assert_eq!(pad_right("Info", 7), format!("{:<7}", "Info"));
    assert_eq!(pad_right("Info", 7), "Info   ");
    assert_eq!(pad_right("Warning", 7), "Warning");
    assert_eq!(pad_right("too long for it", 7), "too long for it");
    assert_eq!(pad_right("\u{E9}", 3), "\u{E9}  ");
    assert_eq!(pad_right("", 0), "");
}
