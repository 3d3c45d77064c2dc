use tag_model::parse::utils::{
    after_line, bool_from_int, is_null, parse_option_int, parse_u16, Line, Next, Unexpected,
};

#[test]
fn bool_from_int_reads_zero_and_one() {
    assert_eq!(bool_from_int(0).unwrap(), false);
    assert_eq!(bool_from_int(1).unwrap(), true);
}

#[test]
fn bool_from_int_refuses_the_rest() {
    for value in [2u8, 3, 100, 255] {
        let refused = bool_from_int(value).unwrap_err();
        assert_eq!(refused.expected, "zero or one");
        match refused.unexpected {
            Unexpected::Unsigned(seen) => assert_eq!(seen, value as u64),
            other => panic!("{:?}", other),
        }
    }
}

#[test]
fn parse_u16_matches_std() {
    for text in [
        "", "0", "7", "42", "1995", "65535", "65536", "99999", "100000", "4294967296", "+", "+5", "+65535", "+65536",
        "++5", "-", "-0", "-5", " 5", "5 ", "5a", "a5", "0005", "00000000000000000000065535", "1_000", "\\N", "١٢", "1.0",
        "0x10",
    ] {
        assert_eq!(parse_u16(text), text.parse::<u16>().ok(), "{:?}", text);
    }
}

#[test]
fn absent_number_reads_as_zero() {
    assert_eq!(parse_option_int("\\N").unwrap(), 0);
    assert!(is_null("\\N"));
    assert!(!is_null("\\n"));
    assert!(!is_null("N"));
    assert!(!is_null("\\NN"));
    assert!(!is_null(""));
}

#[test]
fn present_number_reads_as_itself() {
    assert_eq!(parse_option_int("0").unwrap(), 0);
    assert_eq!(parse_option_int("1995").unwrap(), 1995);
    assert_eq!(parse_option_int("65535").unwrap(), 65535);
}

#[test]
fn anything_else_is_refused() {
    for text in ["", "65536", "nineteen", "\\n", "\\N ", "-1", "19.95"] {
        let refused = parse_option_int(text).unwrap_err();
        assert_eq!(refused.expected, "\\N or integer");
        match refused.unexpected {
            Unexpected::Str(seen) => assert_eq!(seen, text),
            other => panic!("{:?}", other),
        }
    }
}

#[test]
fn reading_goes_on_until_enough_is_kept() {
    assert_eq!(after_line(0, 3, Line::Accepted), Next { keep: true, stop: false });
    assert_eq!(after_line(1, 3, Line::Accepted), Next { keep: true, stop: false });
    assert_eq!(after_line(2, 3, Line::Accepted), Next { keep: true, stop: true });
    assert_eq!(after_line(2, 3, Line::Refused), Next { keep: false, stop: false });
    assert_eq!(after_line(3, 3, Line::Refused), Next { keep: false, stop: true });
    assert_eq!(after_line(0, usize::MAX, Line::Accepted), Next { keep: true, stop: false });
    assert_eq!(after_line(usize::MAX, usize::MAX, Line::Accepted), Next { keep: true, stop: true });
    assert_eq!(after_line(usize::MAX - 1, usize::MAX, Line::Accepted), Next { keep: true, stop: true });
}

#[test]
fn an_unreadable_line_never_ends_the_reading() {
    assert_eq!(after_line(0, 0, Line::Unreadable), Next { keep: false, stop: false });
    assert_eq!(after_line(5, 3, Line::Unreadable), Next { keep: false, stop: false });
}

#[test]
fn asking_for_nothing_ends_at_the_first_readable_line() {
    assert_eq!(after_line(0, 0, Line::Refused), Next { keep: false, stop: true });
    assert_eq!(after_line(0, 0, Line::Accepted), Next { keep: true, stop: true });
}
