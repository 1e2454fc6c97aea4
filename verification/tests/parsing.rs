use dice_notation::{parse, DiceExpression, ParseError};

fn parts(text: &str) -> (u32, u32, i32) {
    let expr = parse(text).expect("the text is valid notation");
    (expr.count(), expr.sides(), expr.modifier())
}

#[test]
fn reads_a_single_die_without_count() {
    assert_eq!(parts("d6"), (1, 6, 0));
}

#[test]
fn reads_count_and_sides() {
    assert_eq!(parts("2d20"), (2, 20, 0));
}

#[test]
fn reads_a_positive_modifier() {
    assert_eq!(parts("4d6+2"), (4, 6, 2));
}

#[test]
fn reads_a_negative_modifier() {
    assert_eq!(parts("1d8-1"), (1, 8, -1));
}

#[test]
fn reads_the_default_notation_of_callers() {
    assert_eq!(parts("1d6"), (1, 6, 0));
}

#[test]
fn reads_an_explicit_zero_modifier() {
    assert_eq!(parts("2d6+0"), (2, 6, 0));
    assert_eq!(parts("2d6-0"), (2, 6, 0));
}

#[test]
fn separator_may_be_upper_case() {
    assert_eq!(parts("2D6"), (2, 6, 0));
    assert_eq!(parts("D20-3"), (1, 20, -3));
    assert_eq!(parse("3d8"), parse("3D8"));
}

#[test]
fn leading_zeros_do_not_count() {
    assert_eq!(parts("02d06+03"), (2, 6, 3));
    assert_eq!(parts("00000000000000000000001d00000000000000000000002"), (1, 2, 0));
}

#[test]
fn empty_text_is_rejected_as_empty() {
    assert_eq!(parse(""), Err(ParseError::Empty));
}

#[test]
fn whitespace_only_is_rejected_as_empty() {
    assert_eq!(parse("   "), Err(ParseError::Empty));
    assert_eq!(parse(" \t\r\n"), Err(ParseError::Empty));
    assert_eq!(parse("\u{a0}\u{3000}\u{2003}"), Err(ParseError::Empty));
}

#[test]
fn whitespace_is_what_std_calls_whitespace() {
    let mut seen: u32 = 0;
    for code in 0..=0x10FFFFu32 {
        if let Some(c) = char::from_u32(code) {
            let text = c.to_string();
            let blank = parse(&text) == Err(ParseError::Empty);
            assert_eq!(blank, c.is_whitespace(), "U+{:04X}", code);
            if blank {
                seen += 1;
            }
        }
    }
    assert_eq!(seen, 25);
}

#[test]
fn text_without_separator_lacks_it() {
    for text in ["6", "26", "abc", "+3", "2x6", "2-6", "-", "two dice".replace('d', "t").as_str(), " 7 "] {
        assert_eq!(parse(text), Err(ParseError::MissingSeparator), "{:?}", text);
    }
}

#[test]
fn zero_count_is_invalid() {
    assert_eq!(parse("0d6"), Err(ParseError::InvalidCount));
    assert_eq!(parse("000d6"), Err(ParseError::InvalidCount));
}

#[test]
fn malformed_count_is_invalid() {
    for text in ["xd6", "+2d6", "-2d6", " 2d6", "2 d6", "1.5d6", "2+3d6", "\u{ff12}d6", "\u{662}d6"] {
        assert_eq!(parse(text), Err(ParseError::InvalidCount), "{:?}", text);
    }
}

#[test]
fn count_must_fit_thirty_two_bits() {
    assert_eq!(parts("4294967295d6"), (u32::MAX, 6, 0));
    assert_eq!(parse("4294967296d6"), Err(ParseError::InvalidCount));
    assert_eq!(parse("99999999999999999999999999d6"), Err(ParseError::InvalidCount));
    assert_eq!(parse("18446744073709551617d6"), Err(ParseError::InvalidCount));
}

#[test]
fn sides_below_two_are_invalid() {
    assert_eq!(parse("2d1"), Err(ParseError::InvalidSides));
    assert_eq!(parse("2d0"), Err(ParseError::InvalidSides));
    assert_eq!(parse("2d01"), Err(ParseError::InvalidSides));
    assert_eq!(parts("2d2"), (2, 2, 0));
}

#[test]
fn missing_or_malformed_sides_are_invalid() {
    for text in ["d", "D", "2d", "2d+3", "2d-1", "2dd6", "2dx", "2d6 ", "2d 6", "2d6 +1", "2d6x+1", "2d1.5"] {
        assert_eq!(parse(text), Err(ParseError::InvalidSides), "{:?}", text);
    }
}

#[test]
fn sides_must_fit_thirty_two_bits() {
    assert_eq!(parts("1d4294967295"), (1, u32::MAX, 0));
    assert_eq!(parse("1d4294967296"), Err(ParseError::InvalidSides));
    assert_eq!(parse("1d42949672950"), Err(ParseError::InvalidSides));
}

#[test]
fn malformed_modifier_is_invalid() {
    for text in ["2d6+x", "2d6+", "2d6-", "2d6+-3", "2d6++3", "2d6+3 ", "2d6+ 3", "2d6+3d4", "2d6+1+1", "2d6-1.0"] {
        assert_eq!(parse(text), Err(ParseError::InvalidModifier), "{:?}", text);
    }
}

#[test]
fn modifier_must_fit_thirty_two_bits() {
    assert_eq!(parts("1d6+2147483647"), (1, 6, i32::MAX));
    assert_eq!(parts("1d6-2147483648"), (1, 6, i32::MIN));
    assert_eq!(parse("1d6+2147483648"), Err(ParseError::InvalidModifier));
    assert_eq!(parse("1d6-2147483649"), Err(ParseError::InvalidModifier));
    assert_eq!(parse("1d6+99999999999999999999999"), Err(ParseError::InvalidModifier));
}

#[test]
fn the_leftmost_malformed_segment_decides() {
    assert_eq!(parse("0d1+x"), Err(ParseError::InvalidCount));
    assert_eq!(parse("2d1+x"), Err(ParseError::InvalidSides));
    assert_eq!(parse("xd"), Err(ParseError::InvalidCount));
    assert_eq!(parse(" d "), Err(ParseError::InvalidCount));
}

#[test]
fn count_d_sides_is_read_back() {
    let counts = [1u32, 2, 9, 10, 11, 99, 100, 1000, 65535, 65536, 1_000_000_007, u32::MAX];
    let sides = [2u32, 3, 6, 10, 20, 100, 101, 999, 4096, 2_147_483_648, u32::MAX];
    for c in counts {
        for s in sides {
            assert_eq!(parts(&format!("{}d{}", c, s)), (c, s, 0));
            assert_eq!(parts(&format!("{}D{}", c, s)), (c, s, 0));
        }
    }
}

#[test]
fn signed_modifier_is_read_back() {
    for m in [-2147483648i64, -1000, -1, 0, 1, 7, 12345, 2147483647] {
        let text = if m < 0 { format!("3d6{}", m) } else { format!("3d6+{}", m) };
        assert_eq!(parts(&text), (3, 6, m as i32));
    }
}

#[test]
fn parsing_twice_gives_equal_values() {
    for text in ["d6", "2d20", "4d6+2", "1d8-1", "", "  ", "2d1", "0d6", "2d6+x", "nothing"] {
        assert_eq!(parse(text), parse(text), "{:?}", text);
    }
}

#[test]
fn new_accepts_what_is_valid_only() {
    let expr = DiceExpression::new(3, 6, -2).expect("three six-sided dice");
    assert_eq!((expr.count(), expr.sides(), expr.modifier()), (3, 6, -2));
    assert_eq!(Some(expr), parse("3d6-2").ok());
    assert_eq!(DiceExpression::new(0, 6, 0), None);
    assert_eq!(DiceExpression::new(1, 1, 0), None);
    assert_eq!(DiceExpression::new(1, 0, 0), None);
    assert_eq!(DiceExpression::new(0, 0, 5), None);
    assert!(DiceExpression::new(1, 2, i32::MIN).is_some());
    assert!(DiceExpression::new(u32::MAX, u32::MAX, i32::MAX).is_some());
}

#[test]
fn str_parse_reads_notation() {
    let expr: DiceExpression = "1d6".parse().expect("valid notation");
    assert_eq!((expr.count(), expr.sides(), expr.modifier()), (1, 6, 0));
    assert_eq!("4d6+2".parse::<DiceExpression>(), parse("4d6+2"));
    assert_eq!("".parse::<DiceExpression>(), Err(ParseError::Empty));
    assert_eq!("2d6+x".parse::<DiceExpression>(), Err(ParseError::InvalidModifier));
}

#[test]
fn every_reason_has_its_own_message() {
    assert_eq!(ParseError::Empty.message(), "the text is empty");
    assert_eq!(
        ParseError::MissingSeparator.message(),
        "the text has no 'd' between count and sides"
    );
    assert_eq!(
        ParseError::InvalidCount.message(),
        "the count is not a whole number from 1 to 4294967295"
    );
    assert_eq!(
        ParseError::InvalidSides.message(),
        "the sides are not a whole number from 2 to 4294967295"
    );
    assert_eq!(
        ParseError::InvalidModifier.message(),
        "the modifier is not a whole number from -2147483648 to 2147483647"
    );
}

#[test]
fn characters_are_taken_one_by_one() {
    assert_eq!(dice_notation::text::characters(""), Vec::<char>::new());
    assert_eq!(dice_notation::text::characters("2d6"), vec!['2', 'd', '6']);
    assert_eq!(dice_notation::text::characters("\u{e9}\u{3000}\u{1f3b2}x"), vec!['\u{e9}', '\u{3000}', '\u{1f3b2}', 'x']);
}
