use fete::protocol::{parse_line, Frame, ParseError};

#[test]
fn decodes_a_frame() {
    let frame = parse_line("P 0000000a 4213 12").unwrap().unwrap();
    assert_eq!(frame.buttons, 0b1010);
    assert_eq!(frame.seq, 4213);
    assert_eq!(frame.panel_age_ms, 12);
}

#[test]
fn tolerates_ragged_whitespace() {
    let frame = parse_line("  P   ff  1   0  \r\n").unwrap().unwrap();
    assert_eq!(frame.buttons, 0xff);
}

#[test]
fn comments_and_blanks_carry_nothing() {
    assert_eq!(parse_line("# booting").unwrap(), None);
    assert_eq!(parse_line("   ").unwrap(), None);
}

#[test]
fn rejects_what_it_cannot_read() {
    assert!(matches!(parse_line("Q 1 2 3"), Err(ParseError::UnknownKind(_))));
    assert!(matches!(parse_line("P 1 2"), Err(ParseError::WrongFieldCount(2))));
    assert!(matches!(parse_line("P zz 2 3"), Err(ParseError::BadField("button mask"))));
}

#[test]
fn accepts_what_the_receiver_firmware_actually_prints() {
    let cases = [
        ("P 00000000 65535 5", 0, 65535, 5),
        ("P 0000000a 1 999999", 0b1010, 1, 999_999),
        ("P 80000000 2 0", 1 << 31, 2, 0),
        ("P 000000ff 3 1500", 0xff, 3, 1500),
    ];
    for (line, buttons, seq, age) in cases {
        let frame = parse_line(line)
            .unwrap_or_else(|e| panic!("firmware line {line:?} rejected: {e:?}"))
            .unwrap_or_else(|| panic!("firmware line {line:?} carried nothing"));
        assert_eq!((frame.buttons, frame.seq, frame.panel_age_ms), (buttons, seq, age));
    }
}

#[test]
fn the_top_button_survives_the_round_trip() {
    let frame = parse_line("P 80000000 0 0").unwrap().unwrap();
    assert_eq!(frame.buttons, 1 << 31);
}

#[test]
fn unknown_kind_carries_the_token_it_saw() {
    assert_eq!(
        parse_line("  Xyz 1 2 3"),
        Err(ParseError::UnknownKind("Xyz".to_string()))
    );
    assert_eq!(parse_line("PP 1 2 3"), Err(ParseError::UnknownKind("PP".to_string())));
}

#[test]
fn each_bad_field_is_named_in_order() {
    assert_eq!(parse_line("P 1 x 3"), Err(ParseError::BadField("sequence")));
    assert_eq!(parse_line("P 1 2 -3"), Err(ParseError::BadField("panel age")));
    assert_eq!(parse_line("P 1 65536 3"), Err(ParseError::BadField("sequence")));
    assert_eq!(parse_line("P 100000000 1 3"), Err(ParseError::BadField("button mask")));
    assert_eq!(parse_line("P 1 2 3 4"), Err(ParseError::WrongFieldCount(4)));
    assert_eq!(parse_line("P"), Err(ParseError::WrongFieldCount(0)));
}

#[test]
fn numbers_read_like_from_str_radix() {
    assert_eq!(
        parse_line("P +FF +7 +0").unwrap(),
        Some(Frame { buttons: 0xff, seq: 7, panel_age_ms: 0 })
    );
    assert_eq!(parse_line("P + 1 2"), Err(ParseError::BadField("button mask")));
    assert_eq!(parse_line("P ffffffff 0 4294967295").unwrap().unwrap().panel_age_ms, u32::MAX);
    assert_eq!(parse_line("P 1 2 4294967296"), Err(ParseError::BadField("panel age")));
}

#[test]
fn a_comment_needs_no_space_and_whitespace_is_unicode() {
    assert_eq!(parse_line("#P 1 2 3").unwrap(), None);
    assert_eq!(
        parse_line("\u{3000}P\u{a0}1\t2\u{2003}3").unwrap(),
        Some(Frame { buttons: 1, seq: 2, panel_age_ms: 3 })
    );
}

#[test]
fn each_error_says_what_went_wrong() {
    assert_eq!(
        ParseError::UnknownKind("Q".to_string()).message(),
        "unknown frame kind `Q`"
    );
    assert_eq!(
        ParseError::WrongFieldCount(2).message(),
        "expected 3 fields after `P`, got 2"
    );
    assert_eq!(
        ParseError::WrongFieldCount(1234).message(),
        "expected 3 fields after `P`, got 1234"
    );
    assert_eq!(
        ParseError::BadField("buttons").message(),
        "could not parse the buttons field"
    );
}
