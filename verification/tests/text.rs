use hydra::text::{
    has_prefix_at, i32_decimal, is_whitespace, parse_i32, parse_u128, parse_u64, split_chars,
    str_equal, trim_bounds, u64_decimal, ws_tokens_of,
};

fn chars_of(s: &str) -> Vec<char> {
    s.chars().collect()
}

fn text(v: &[char]) -> String {
    v.iter().collect()
}

#[test]
fn decimal_printing_parses_back() {
    for n in [0u64, 7, 10, 12345, u64::MAX] {
        let d = u64_decimal(n);
        assert_eq!(text(&d), n.to_string());
        assert_eq!(parse_u64(&d), Some(n));
    }
    for n in [0i32, -1, 42, i32::MIN, i32::MAX] {
        let d = i32_decimal(n);
        assert_eq!(text(&d), n.to_string());
        assert_eq!(parse_i32(&d), Some(n));
    }
}

#[test]
fn parsing_follows_str_parse() {
    for s in ["", "+", "-", "+5", "-5", "007", "1 2", "x", "340282366920938463463374607431768211455", "340282366920938463463374607431768211456"] {
        let c = chars_of(s);
        assert_eq!(parse_u64(&c), s.parse::<u64>().ok(), "{s}");
        assert_eq!(parse_u128(&c), s.parse::<u128>().ok(), "{s}");
        assert_eq!(parse_i32(&c), s.parse::<i32>().ok(), "{s}");
    }
}

#[test]
fn trimming_and_tokens() {
    let c = chars_of("  a b\t\n");
    let (a, b) = trim_bounds(&c);
    assert_eq!(text(&c[a..b]), "a b");
    let t: Vec<String> = ws_tokens_of(&chars_of(" a  bc\nd ")).iter().map(|v| text(v)).collect();
    assert_eq!(t, vec!["a", "bc", "d"]);
    assert!(is_whitespace('\u{a0}'));
    assert!(!is_whitespace('x'));
}

#[test]
fn splitting_like_str_split() {
    for s in ["", "a", "a&b", "&&", "a&"] {
        let pieces: Vec<String> = split_chars(&chars_of(s), '&').iter().map(|v| text(v)).collect();
        let expected: Vec<String> = s.split('&').map(String::from).collect();
        assert_eq!(pieces, expected);
    }
}

#[test]
fn string_helpers() {
    assert!(str_equal("abc", "abc"));
    assert!(!str_equal("abc", "abd"));
    assert_eq!(hydra::text::concat("ab", "cd"), "abcd");
    let s = chars_of("machine_id=1");
    assert!(has_prefix_at(&s, 0, &chars_of("machine_id=")));
    assert!(!has_prefix_at(&s, 1, &chars_of("machine_id=")));
}
