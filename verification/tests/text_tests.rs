use eve_log_scripts::text::{
    chars_of, is_white_space_char, parse_u64, same_text, split_chars, string_from_chars, to_ascii_lowercase, trim_chars,
    trim_text,
};
use eve_log_scripts::text_map::{text_less, TextMap};

fn strings(v: &[Vec<char>]) -> Vec<String> {
    v.iter().map(|cs| cs.iter().collect()).collect()
}

#[test]
fn chars_round_trip_through_string() {
    let cs = chars_of("héllo 😀");
    assert_eq!(cs, vec!['h', 'é', 'l', 'l', 'o', ' ', '😀']);
    assert_eq!(string_from_chars(&cs), "héllo 😀");
    assert_eq!(string_from_chars(&[]), "");
}

#[test]
fn same_text_compares_characters() {
    assert!(same_text("Default", "Default"));
    assert!(!same_text("Default", "default"));
    assert!(!same_text("", "a"));
    assert!(same_text("", ""));
}

#[test]
fn white_space_follows_unicode() {
    for c in [' ', '\t', '\n', '\r', '\u{0B}', '\u{0C}', '\u{85}', '\u{A0}', '\u{2003}', '\u{3000}', '\u{2028}'] {
        assert!(is_white_space_char(c), "{:?}", c);
        assert!(c.is_whitespace());
    }
    for c in ['a', '0', '\u{200B}', '\u{FEFF}', '_'] {
        assert!(!is_white_space_char(c), "{:?}", c);
        assert!(!c.is_whitespace());
    }
}

#[test]
fn trim_matches_std() {
    for s in ["  a b \t\r\n", "", "   ", "x", "\u{3000}x\u{A0}", "\r\n[ 2024 ] line\r"] {
        assert_eq!(trim_text(s), s.trim());
        let cs: Vec<char> = s.chars().collect();
        let t: String = trim_chars(&cs).into_iter().collect();
        assert_eq!(t, s.trim());
        let once = trim_text(s);
        assert_eq!(trim_text(&once), once);
        if let (Some(first), Some(last)) = (once.chars().next(), once.chars().last()) {
            assert!(!is_white_space_char(first) && !is_white_space_char(last));
        }
    }
}

#[test]
fn split_keeps_empty_pieces() {
    let cs: Vec<char> = "a\nb\n".chars().collect();
    assert_eq!(strings(&split_chars(&cs, '\n')), vec!["a", "b", ""]);
    let cs: Vec<char> = "".chars().collect();
    assert_eq!(strings(&split_chars(&cs, '\n')), vec![""]);
    let cs: Vec<char> = "\n\nx".chars().collect();
    assert_eq!(strings(&split_chars(&cs, '\n')), vec!["", "", "x"]);
}

#[test]
fn ascii_lowercase_leaves_other_letters() {
    assert_eq!(to_ascii_lowercase("Bob > FA A1"), "bob > fa a1");
    assert_eq!(to_ascii_lowercase("ÄÖÜ Straße"), "ÄÖÜ straße");
    assert_eq!(to_ascii_lowercase(""), "");
}

#[test]
fn parse_u64_like_std() {
    let cases = [
        "0",
        "42",
        "+12",
        "007",
        "18446744073709551615",
        "18446744073709551616",
        "",
        "+",
        "-1",
        "1a",
        " 1",
        "1 ",
        "99999999999999999999999",
    ];
    for s in cases {
        assert_eq!(parse_u64(s), s.parse::<u64>().ok(), "{:?}", s);
    }
    assert_eq!(parse_u64("+12"), Some(12));
    assert_eq!(parse_u64("18446744073709551615"), Some(u64::MAX));
    assert_eq!(parse_u64("18446744073709551616"), None);
}

#[test]
fn text_order_is_by_code_point() {
    assert!(text_less("a", "b"));
    assert!(text_less("a", "ab"));
    assert!(text_less("", "a"));
    assert!(text_less("ab", "b"));
    assert!(text_less("Z", "a"));
    assert!(!text_less("b", "a"));
    assert!(!text_less("a", "a"));
    assert!(!text_less("", ""));
    for (a, b) in [("x", "xy"), ("é", "z"), ("Bob", "Alice"), ("same", "same")] {
        assert_eq!(text_less(a, b), a < b);
    }
}

#[test]
fn text_map_keeps_keys_sorted_and_unique() {
    let mut m: TextMap<u32> = TextMap::new();
    assert_eq!(m.len(), 0);
    assert!(m.keys().is_empty());
    m.insert("b".to_string(), 2);
    m.insert("a".to_string(), 1);
    m.insert("c".to_string(), 3);
    m.insert("a".to_string(), 10);
    assert_eq!(m.len(), 3);
    assert_eq!(m.keys(), vec!["a", "b", "c"]);
    assert_eq!(m.get("a"), Some(&10));
    assert_eq!(m.get("d"), None);
    assert!(m.contains_key("b"));
    assert!(!m.contains_key("B"));
    assert_eq!(m.key_at(1), "b");
    assert_eq!(*m.value_at(2), 3);
    assert_eq!(m.remove("b"), Some(2));
    assert_eq!(m.remove("b"), None);
    assert_eq!(m.keys(), vec!["a", "c"]);
    assert_eq!(m.len(), 2);
}
