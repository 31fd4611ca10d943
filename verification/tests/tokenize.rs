use color_editor::color_file::{color_to_text, parse_text, ColorKind, Token};
use color_editor::parse_options::ParseOptions;
use color_editor::Rgb;

fn opts(prefixless6: bool, prefixless3: bool) -> ParseOptions {
    ParseOptions { prefixless6, prefixless3 }
}

fn rgb(r: u8, g: u8, b: u8) -> Rgb {
    Rgb { r, g, b }
}

fn render(tokens: &[Token]) -> String {
    let mut out = String::new();
    for token in tokens {
        match token {
            Token::Color(kind, value) => out.push_str(&color_to_text(kind, *value)),
            Token::Text(s) => out.push_str(s),
        }
    }
    out
}

#[test]
fn no_colors_single_text_token() {
    let (tokens, count) = parse_text("hello world, nothing here?", &ParseOptions::default());
    assert_eq!(count, 0);
    assert_eq!(tokens.len(), 1);
    match &tokens[0] {
        Token::Text(s) => assert_eq!(s, "hello world, nothing here?"),
        _ => panic!("expected a text token"),
    }
}

#[test]
fn identity_round_trip_without_colors() {
    let source = "zzz qqq | nothing hexy here at all";
    let (tokens, count) = parse_text(source, &ParseOptions::default());
    assert_eq!(count, 0);
    assert_eq!(render(&tokens), source);
}

#[test]
fn unedited_round_trip_with_colors() {
    let source = "xx#abcdefyy 0xabc and #123 plus 0x010203 end";
    let (tokens, _) = parse_text(source, &ParseOptions::default());
    assert_eq!(render(&tokens), source);
}

#[test]
fn unedited_round_trip_prefixless() {
    let source = "deadbe ef0 plain";
    let (tokens, count) = parse_text(source, &opts(true, true));
    assert!(count > 0);
    assert_eq!(render(&tokens), source);
}

#[test]
fn hex6_wins_priority_over_hex3() {
    let (tokens, count) = parse_text("#abcdef", &ParseOptions::default());
    assert_eq!(count, 1);
    assert_eq!(tokens.len(), 1);
    match &tokens[0] {
        Token::Color(ColorKind::Hex6 { prefix }, value) => {
            assert_eq!(prefix, "#");
            assert_eq!(*value, rgb(0xab, 0xcd, 0xef));
        },
        _ => panic!("expected one six-digit color token"),
    }
}

#[test]
fn prefixless_gating_off_finds_nothing() {
    let (tokens, count) = parse_text("abc123", &ParseOptions::default());
    assert_eq!(count, 0);
    assert_eq!(tokens.len(), 1);
    match &tokens[0] {
        Token::Text(s) => assert_eq!(s, "abc123"),
        _ => panic!("expected a text token"),
    }
}

#[test]
fn prefixless_gating_on_finds_hex6() {
    let (tokens, count) = parse_text("abc123", &opts(true, false));
    assert_eq!(count, 1);
    assert_eq!(tokens.len(), 1);
    match &tokens[0] {
        Token::Color(ColorKind::Hex6 { prefix }, value) => {
            assert_eq!(prefix, "");
            assert_eq!(*value, rgb(0xab, 0xc1, 0x23));
        },
        _ => panic!("expected one six-digit color token"),
    }
}

#[test]
fn discarded_prefixless_candidate_blocks_nothing() {
    // With prefixless6 off, the six-digit candidate over "abcdef" is
    // discarded without claiming its range, so the lower-priority notation
    // is still free to match inside it.
    let (tokens, count) = parse_text("abcdef", &opts(false, true));
    assert_eq!(count, 2);
    assert_eq!(tokens.len(), 2);
    match &tokens[0] {
        Token::Color(ColorKind::Hex3 { prefix }, value) => {
            assert_eq!(prefix, "");
            assert_eq!(*value, rgb(0xa * 17, 0xb * 17, 0xc * 17));
        },
        _ => panic!("expected a three-digit color token"),
    }
    match &tokens[1] {
        Token::Color(ColorKind::Hex3 { prefix }, value) => {
            assert_eq!(prefix, "");
            assert_eq!(*value, rgb(0xd * 17, 0xe * 17, 0xf * 17));
        },
        _ => panic!("expected a three-digit color token"),
    }
}

#[test]
fn hex3_expansion_decodes_digit_times_17() {
    let (tokens, count) = parse_text("#abc", &ParseOptions::default());
    assert_eq!(count, 1);
    match &tokens[0] {
        Token::Color(ColorKind::Hex3 { prefix }, value) => {
            assert_eq!(prefix, "#");
            assert_eq!(*value, rgb(170, 187, 204));
        },
        _ => panic!("expected a three-digit color token"),
    }
    assert_eq!(render(&tokens), "#abc");
}

#[test]
fn adjacent_ranges_both_survive() {
    // [0,6) and [6,9): touching at a boundary is not an overlap.
    let (tokens, count) = parse_text("abcdefabc", &opts(true, true));
    assert_eq!(count, 2);
    assert_eq!(tokens.len(), 2);
    match &tokens[0] {
        Token::Color(ColorKind::Hex6 { .. }, value) => assert_eq!(*value, rgb(0xab, 0xcd, 0xef)),
        _ => panic!("expected a six-digit color token first"),
    }
    match &tokens[1] {
        Token::Color(ColorKind::Hex3 { .. }, value) => {
            assert_eq!(*value, rgb(0xa * 17, 0xb * 17, 0xc * 17))
        },
        _ => panic!("expected a three-digit color token second"),
    }
}

#[test]
fn overlapping_range_yields_only_higher_priority() {
    // The three-digit candidates inside the claimed six-digit range overlap
    // it and are skipped; only the trailing character is left as text.
    let (tokens, count) = parse_text("#abcdefa", &opts(false, true));
    assert_eq!(count, 1);
    assert_eq!(tokens.len(), 2);
    match &tokens[0] {
        Token::Color(ColorKind::Hex6 { .. }, _) => {},
        _ => panic!("expected a six-digit color token"),
    }
    match &tokens[1] {
        Token::Text(s) => assert_eq!(s, "a"),
        _ => panic!("expected trailing text"),
    }
}

#[test]
fn gap_emission_around_color() {
    let (tokens, count) = parse_text("xx#abcdefyy", &ParseOptions::default());
    assert_eq!(count, 1);
    assert_eq!(tokens.len(), 3);
    match &tokens[0] {
        Token::Text(s) => assert_eq!(s, "xx"),
        _ => panic!("expected leading text"),
    }
    match &tokens[1] {
        Token::Color(ColorKind::Hex6 { prefix }, value) => {
            assert_eq!(prefix, "#");
            assert_eq!(*value, rgb(0xab, 0xcd, 0xef));
        },
        _ => panic!("expected a color token"),
    }
    match &tokens[2] {
        Token::Text(s) => assert_eq!(s, "yy"),
        _ => panic!("expected trailing text"),
    }
}

#[test]
fn no_empty_text_between_adjacent_colors() {
    let (tokens, count) = parse_text("#abcdef#123456", &ParseOptions::default());
    assert_eq!(count, 2);
    assert_eq!(tokens.len(), 2);
    assert!(matches!(&tokens[0], Token::Color(_, _)));
    assert!(matches!(&tokens[1], Token::Color(_, _)));
}

#[test]
fn empty_text_gives_no_tokens() {
    let (tokens, count) = parse_text("", &opts(true, true));
    assert_eq!(count, 0);
    assert_eq!(tokens.len(), 0);
    assert_eq!(render(&tokens), "");
}

#[test]
fn zero_x_prefix_captured_and_replayed() {
    let source = "v = 0xebc17a;";
    let (tokens, count) = parse_text(source, &ParseOptions::default());
    assert_eq!(count, 1);
    match &tokens[1] {
        Token::Color(ColorKind::Hex6 { prefix }, value) => {
            assert_eq!(prefix, "0x");
            assert_eq!(*value, rgb(0xeb, 0xc1, 0x7a));
        },
        _ => panic!("expected a six-digit color token"),
    }
    assert_eq!(render(&tokens), source);
}

#[test]
fn upper_case_literal_renders_lower_case() {
    // Upper-case digits decode to the same value and re-render in the
    // serializer's lower case: the one way an unedited save rewrites text.
    let (tokens, count) = parse_text("#ABCDEF", &ParseOptions::default());
    assert_eq!(count, 1);
    match &tokens[0] {
        Token::Color(_, value) => assert_eq!(*value, rgb(0xab, 0xcd, 0xef)),
        _ => panic!("expected a color token"),
    }
    assert_eq!(render(&tokens), "#abcdef");
}

#[test]
fn multibyte_text_around_colors_round_trips() {
    let source = "héllo ☂ #abcdef ← done";
    let (tokens, count) = parse_text(source, &ParseOptions::default());
    assert_eq!(count, 1);
    assert_eq!(render(&tokens), source);
}

#[test]
fn color_to_text_hex6_formats_two_digits_per_channel() {
    let kind = ColorKind::Hex6 { prefix: String::from("#") };
    assert_eq!(color_to_text(&kind, rgb(171, 205, 239)), "#abcdef");
    let bare = ColorKind::Hex6 { prefix: String::new() };
    assert_eq!(color_to_text(&bare, rgb(0, 1, 255)), "0001ff");
}

#[test]
fn color_to_text_hex3_truncates_each_channel() {
    let kind = ColorKind::Hex3 { prefix: String::from("#") };
    assert_eq!(color_to_text(&kind, rgb(170, 187, 204)), "#abc");
    // 18/16 = 1, 52/16 = 3, 86/16 = 5: not multiples of 17, precision lost.
    assert_eq!(color_to_text(&kind, rgb(18, 52, 86)), "#135");
}

#[test]
fn hex3_encode_is_stable_but_not_invertible() {
    let kind = ColorKind::Hex3 { prefix: String::from("#") };
    let arbitrary = rgb(18, 52, 86);
    let once = color_to_text(&kind, arbitrary);
    // Decode what the encoder wrote, then encode again: same text.
    let (tokens, count) = parse_text(&once, &ParseOptions::default());
    assert_eq!(count, 1);
    let decoded = match &tokens[0] {
        Token::Color(_, value) => *value,
        _ => panic!("expected a color token"),
    };
    assert_eq!(color_to_text(&kind, decoded), once);
    // But decoding did not give the arbitrary value back.
    assert_ne!(decoded, arbitrary);
    assert_eq!(decoded, rgb(17, 51, 85));
}
