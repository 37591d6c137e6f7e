use punten_telling_tik_spel::config::relevance_from_tokens;
use punten_telling_tik_spel::text::{chars_of, parse_u32, same_text, text_contains, trim, white_space};

#[test]
fn parse_u32_reads_plain_digits() {
    assert_eq!(parse_u32("24"), Some(24));
    assert_eq!(parse_u32("0"), Some(0));
    assert_eq!(parse_u32("007"), Some(7));
}

#[test]
fn parse_u32_takes_one_plus_sign() {
    assert_eq!(parse_u32("+7"), Some(7));
    assert_eq!(parse_u32("++7"), None);
    assert_eq!(parse_u32("+"), None);
}

#[test]
fn parse_u32_refuses_what_std_refuses() {
    for s in ["", "-1", "-0", "1 ", " 1", "1a", "٣", "4294967296", "99999999999"] {
        assert_eq!(parse_u32(s), s.parse::<u32>().ok(), "input {:?}", s);
        assert_eq!(parse_u32(s), None);
    }
}

#[test]
fn parse_u32_edge_of_range() {
    assert_eq!(parse_u32("4294967295"), Some(u32::MAX));
    assert_eq!(parse_u32("04294967295"), Some(u32::MAX));
}

#[test]
fn text_contains_finds_parts() {
    assert!(text_contains("hours:", "hour"));
    assert!(text_contains("xhoursx", "hour"));
    assert!(text_contains("day", "day"));
    assert!(!text_contains("da", "day"));
    assert!(!text_contains("hou r", "hour"));
    assert!(text_contains("anything", ""));
    assert!(text_contains("", ""));
    assert!(!text_contains("", "x"));
}

#[test]
fn same_text_compares_characters() {
    assert!(same_text("name", "name"));
    assert!(!same_text("name", "name:"));
    assert!(!same_text("Name", "name"));
}

#[test]
fn chars_of_gives_characters() {
    assert_eq!(chars_of("aé€"), vec!['a', 'é', '€']);
    assert_eq!(chars_of(""), Vec::<char>::new());
}

#[test]
fn tokens_are_lowercased_and_values_trimmed() {
    let r = relevance_from_tokens(&vec!["HoUrS".to_string(), "  12 \t".to_string()]);
    assert_eq!(r.hours, Some(12));
    let r = relevance_from_tokens(&vec!["DAG".to_string(), "3".to_string(), "DAYS".to_string(), " 4".to_string()]);
    assert_eq!(r.days, Some(4));
}

#[test]
fn white_space_is_unicode_white_space() {
    let mut count = 0;
    for code in 0u32..=0x10FFFF {
        if let Some(c) = char::from_u32(code) {
            assert_eq!(white_space(c), c.is_whitespace(), "character {:#x}", code);
            if white_space(c) {
                count += 1;
            }
        }
    }
    assert_eq!(count, 25);
}

#[test]
fn trim_matches_std() {
    let cases = [
        "",
        "   ",
        "abc",
        "  abc  ",
        "\t\n a b \r\n",
        "\u{a0}x\u{3000}",
        "\u{2003}\u{85}naam\u{2028}",
        "x\u{200b}",
        "\u{feff}y",
        " \u{1680} mid dle \u{202f}",
    ];
    for c in cases.iter() {
        assert_eq!(trim(c), c.trim(), "case {:?}", c);
    }
}

#[test]
fn trim_keeps_inner_space() {
    assert_eq!(trim("  a  b  "), "a  b");
    assert_eq!(trim("\t"), "");
}
